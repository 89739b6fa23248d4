//! Text style over a list of fixed-cell fonts: per-character font
//! routing, string measurement, and drawing plans.

use vstd::prelude::*;
use crate::geometry::{Point, Rectangle, Size};
use crate::{ChSzTy, MultiMonoFont};

verus! {

/// How a style derives its line height from its fonts' cell heights.
#[derive(Copy, Clone, Debug, PartialEq, Eq, Structural)]
pub enum MultiMonoLineHeight {
    /// The greatest cell height among the fonts.
    Max,
    /// The smallest cell height among the fonts.
    Min,
    /// A literal override, ignoring the fonts' cell heights.
    Specify(ChSzTy),
}

/// The vertical reference that a draw position refers to.
#[derive(Copy, Clone, Debug, PartialEq, Eq, Structural)]
pub enum Baseline {
    /// The top edge of the glyph cell.
    Top,
    /// The bottom edge of the glyph cell.
    Bottom,
    /// The middle of the glyph cell.
    Middle,
    /// The font's declared alphabetic baseline.
    Alphabetic,
}

/// The measured footprint of a string: the box its glyph cells cover and
/// the position where drawing would leave the cursor.
#[derive(Copy, Clone, Debug, PartialEq, Eq, Structural)]
pub struct TextMetrics {
    /// The rectangle the drawn glyph cells would cover.
    pub bounding_box: Rectangle,
    /// The cursor position after the string.
    pub next_position: Point,
}

/// One step of a drawing plan. A caller replays the steps, in order, onto
/// its pixel surface; a step that fails ends the replay, leaving earlier
/// pixels in place.
#[derive(Copy, Clone, Debug, PartialEq, Eq, Structural)]
pub enum DrawCommand {
    /// Composite the atlas rectangle `area` of the font at `font_index`
    /// onto the surface with its top-left corner at `position`, on pixels
    /// in the style's text color, off pixels in the background color or
    /// skipped where none is set.
    Glyph { font_index: usize, area: Rectangle, position: Point },
    /// Fill `area` with the style's background color.
    Fill { area: Rectangle },
}

/// Is this the zero-sized sentinel font that stands in for an empty font
/// list: an empty atlas of nominal width one, zero-sized cells, no
/// spacing, baseline zero and a mapping that claims nothing?
pub open spec fn is_sentinel_font(f: MultiMonoFont) -> bool {
    &&& f.image_data@.len() == 0
    &&& f.image_width == 1u32
    &&& f.character_size == (crate::CharSize { width: 0 as ChSzTy, height: 0 as ChSzTy })
    &&& f.character_spacing == 0 as ChSzTy
    &&& f.baseline == 0 as ChSzTy
    &&& f.glyph_mapping.char_seq().len() == 0
    &&& f.glyph_mapping.spec_replacement() == 0
}

/// The greatest cell height among the fonts; zero when there are none.
pub open spec fn spec_max_height(fonts: Seq<MultiMonoFont>) -> int
    decreases fonts.len(),
{
    if fonts.len() == 0 {
        0
    } else {
        let rest = spec_max_height(fonts.drop_last());
        if fonts.last().character_size.height as int > rest {
            fonts.last().character_size.height as int
        } else {
            rest
        }
    }
}

/// The smallest cell height among the fonts; the unit's largest value
/// when there are none.
pub open spec fn spec_min_height(fonts: Seq<MultiMonoFont>) -> int
    decreases fonts.len(),
{
    if fonts.len() == 0 {
        ChSzTy::MAX as int
    } else {
        let rest = spec_min_height(fonts.drop_last());
        if (fonts.last().character_size.height as int) < rest {
            fonts.last().character_size.height as int
        } else {
            rest
        }
    }
}

/// The line height a policy resolves to over a font list.
pub open spec fn spec_line_height(policy: MultiMonoLineHeight, fonts: Seq<MultiMonoFont>) -> int {
    match policy {
        MultiMonoLineHeight::Max => spec_max_height(fonts),
        MultiMonoLineHeight::Min => spec_min_height(fonts),
        MultiMonoLineHeight::Specify(h) => h as int,
    }
}

/// Resolves a line-height policy over a font list, once, at style
/// construction.
fn get_line_height(policy: MultiMonoLineHeight, fonts: &Vec<MultiMonoFont>) -> (r: ChSzTy)
    ensures
        r as int == spec_line_height(policy, fonts@),
{
    let n = fonts.len();
    match policy {
        MultiMonoLineHeight::Max => {
            let mut max: ChSzTy = 0;
            let mut idx: usize = 0;
            while idx < n
                invariant
                    n == fonts@.len(),
                    0 <= idx <= n,
                    max as int == spec_max_height(fonts@.take(idx as int)),
                decreases n - idx,
            {
                let h = fonts[idx].character_size.height;
                proof {
                    assert(fonts@.take(idx as int + 1).drop_last() =~= fonts@.take(idx as int));
                    assert(fonts@.take(idx as int + 1).last() == fonts@[idx as int]);
                }
                if h > max {
                    max = h;
                }
                idx = idx + 1;
            }
            proof {
                assert(fonts@.take(n as int) =~= fonts@);
            }
            max
        },
        MultiMonoLineHeight::Min => {
            let mut min: ChSzTy = ChSzTy::MAX;
            let mut idx: usize = 0;
            while idx < n
                invariant
                    n == fonts@.len(),
                    0 <= idx <= n,
                    min as int == spec_min_height(fonts@.take(idx as int)),
                decreases n - idx,
            {
                let h = fonts[idx].character_size.height;
                proof {
                    assert(fonts@.take(idx as int + 1).drop_last() =~= fonts@.take(idx as int));
                    assert(fonts@.take(idx as int + 1).last() == fonts@[idx as int]);
                }
                if h < min {
                    min = h;
                }
                idx = idx + 1;
            }
            proof {
                assert(fonts@.take(n as int) =~= fonts@);
            }
            min
        },
        MultiMonoLineHeight::Specify(h) => h,
    }
}

/// The position in the font list of the first font whose mapping claims
/// `c`; the first font stands in when none does.
pub open spec fn spec_font_find(fonts: Seq<MultiMonoFont>, c: char) -> Option<int>
    decreases fonts.len(),
{
    if fonts.len() == 0 {
        None
    } else if fonts[0].glyph_mapping.spec_contains(c) {
        Some(0)
    } else {
        match spec_font_find(fonts.skip(1), c) {
            Some(i) => Some(i + 1),
            None => None,
        }
    }
}

/// The font list entry that renders `c`: the first whose mapping claims
/// it, else entry zero.
pub open spec fn spec_font_index(fonts: Seq<MultiMonoFont>, c: char) -> int {
    match spec_font_find(fonts, c) {
        Some(i) => i,
        None => 0,
    }
}

/// The resolved font index is a valid index into a non-empty font list.
pub proof fn lemma_font_index_in_range(fonts: Seq<MultiMonoFont>, c: char)
    requires
        fonts.len() > 0,
    ensures
        0 <= spec_font_index(fonts, c) < fonts.len(),
    decreases fonts.len(),
{
    if fonts.len() > 0 && !fonts[0].glyph_mapping.spec_contains(c) {
        if fonts.skip(1).len() > 0 {
            lemma_font_index_in_range(fonts.skip(1), c);
        }
    }
}

/// The vertical distance from the top edge of a glyph cell of `font`
/// down to the reference that `baseline` names.
pub open spec fn spec_baseline_offset(baseline: Baseline, font: MultiMonoFont) -> int {
    let h = font.character_size.height as int;
    match baseline {
        Baseline::Top => 0,
        Baseline::Bottom => if h == 0 {
            0
        } else {
            h - 1
        },
        Baseline::Middle => (if h == 0 {
            0
        } else {
            h - 1
        }) / 2,
        Baseline::Alphabetic => font.baseline as int,
    }
}

/// The horizontal advance one character contributes: its font's cell
/// width plus that font's inter-glyph spacing.
pub open spec fn spec_char_advance(fonts: Seq<MultiMonoFont>, c: char) -> int {
    let f = fonts[spec_font_index(fonts, c)];
    f.character_size.width as int + f.character_spacing as int
}

/// The total advance of a string: the sum of its characters' advances,
/// the trailing spacing included.
pub open spec fn spec_total_advance(fonts: Seq<MultiMonoFont>, text: Seq<char>) -> int
    decreases text.len(),
{
    if text.len() == 0 {
        0
    } else {
        spec_total_advance(fonts, text.drop_last()) + spec_char_advance(fonts, text.last())
    }
}

/// The measured width of a string: the total advance with the last
/// character's trailing spacing taken back out; zero for the empty
/// string.
pub open spec fn spec_text_width(fonts: Seq<MultiMonoFont>, text: Seq<char>) -> int {
    if text.len() == 0 {
        0
    } else {
        spec_total_advance(fonts, text)
            - fonts[spec_font_index(fonts, text.last())].character_spacing as int
    }
}

/// The greatest cell height among the fonts the string's characters
/// resolve to; zero for the empty string.
pub open spec fn spec_text_height(fonts: Seq<MultiMonoFont>, text: Seq<char>) -> int
    decreases text.len(),
{
    if text.len() == 0 {
        0
    } else {
        let rest = spec_text_height(fonts, text.drop_last());
        let h = fonts[spec_font_index(fonts, text.last())].character_size.height as int;
        if h > rest {
            h
        } else {
            rest
        }
    }
}

/// The greatest baseline offset among the fonts the string's characters
/// resolve to; zero for the empty string.
pub open spec fn spec_max_baseline_offset(
    fonts: Seq<MultiMonoFont>,
    text: Seq<char>,
    baseline: Baseline,
) -> int
    decreases text.len(),
{
    if text.len() == 0 {
        0
    } else {
        let rest = spec_max_baseline_offset(fonts, text.drop_last(), baseline);
        let o = spec_baseline_offset(baseline, fonts[spec_font_index(fonts, text.last())]);
        if o > rest {
            o
        } else {
            rest
        }
    }
}

/// Every advance is non-negative, so prefixes never advance further than
/// the whole string.
pub proof fn lemma_advance_monotone(fonts: Seq<MultiMonoFont>, text: Seq<char>, i: int)
    requires
        fonts.len() > 0,
        0 <= i <= text.len(),
    ensures
        0 <= spec_total_advance(fonts, text.take(i)) <= spec_total_advance(fonts, text),
    decreases text.len() - i,
{
    lemma_advance_nonneg(fonts, text.take(i));
    if i == text.len() {
        assert(text.take(i) =~= text);
        lemma_advance_nonneg(fonts, text);
    } else {
        lemma_advance_monotone(fonts, text, i + 1);
        assert(text.take(i + 1).drop_last() =~= text.take(i));
        assert(text.take(i + 1).last() == text[i]);
        lemma_font_index_in_range(fonts, text[i]);
    }
}

/// A total advance is never negative.
pub proof fn lemma_advance_nonneg(fonts: Seq<MultiMonoFont>, text: Seq<char>)
    requires
        fonts.len() > 0,
    ensures
        spec_total_advance(fonts, text) >= 0,
    decreases text.len(),
{
    if text.len() > 0 {
        lemma_advance_nonneg(fonts, text.drop_last());
        lemma_font_index_in_range(fonts, text.last());
    }
}

/// Style properties for text using a list of monospaced fonts.
///
/// Each character is rendered by the first font in the list whose mapping
/// claims it, with the first font standing in for characters no mapping
/// claims. A style with neither text nor background color is
/// transparent: it advances the cursor without emitting a single draw
/// step.
#[derive(Debug)]
pub struct MultiMonoTextStyle<C> {
    /// Text color.
    pub text_color: Option<C>,

    /// Background color.
    pub background_color: Option<C>,

    /// The fonts, in routing priority order.
    pub fonts: Vec<MultiMonoFont>,

    /// The resolved line height, fixed at construction.
    pub line_height: ChSzTy,
}

impl<C> MultiMonoTextStyle<C> {
    /// The style has at least one font and each font's geometry stays on
    /// the pixel grid.
    pub open spec fn wf(self) -> bool {
        &&& self.fonts@.len() >= 1
        &&& forall|i: int| 0 <= i < self.fonts@.len() ==> (#[trigger] self.fonts@[i]).wf()
    }

    /// Neither a text nor a background color is set.
    pub open spec fn spec_is_transparent(self) -> bool {
        self.text_color is None && self.background_color is None
    }

    /// Returns `true` if the style is transparent.
    ///
    /// Drawing with a transparent style emits no draw steps at all.
    pub fn is_transparent(&self) -> (r: bool)
        ensures
            r == self.spec_is_transparent(),
    {
        self.text_color.is_none() && self.background_color.is_none()
    }

    /// The index of the font that renders `c`: the first whose mapping
    /// claims it, else the first font of the list.
    fn get_font_info(&self, c: char) -> (r: usize)
        requires
            self.wf(),
        ensures
            r as int == spec_font_index(self.fonts@, c),
            r < self.fonts@.len(),
    {
        let n = self.fonts.len();
        let mut k: usize = 0;
        proof {
            assert(self.fonts@.skip(0) =~= self.fonts@);
        }
        while k < n
            invariant
                n == self.fonts@.len(),
                0 <= k <= n,
                forall|j: int|
                    0 <= j < k ==> !(#[trigger] self.fonts@[j]).glyph_mapping.spec_contains(c),
                spec_font_find(self.fonts@, c) == match spec_font_find(self.fonts@.skip(k as int), c) {
                    Some(i) => Some(i + k as int),
                    None => None::<int>,
                },
            decreases n - k,
        {
            proof {
                assert(self.fonts@.skip(k as int)[0] == self.fonts@[k as int]);
                assert(self.fonts@.skip(k as int).skip(1) =~= self.fonts@.skip(k as int + 1));
            }
            if self.fonts[k].glyph_mapping.contains(c) {
                return k;
            }
            k = k + 1;
        }
        proof {
            assert(self.fonts@.skip(n as int) =~= Seq::<MultiMonoFont>::empty());
        }
        0
    }

    /// Returns the vertical offset between the line position and the top
    /// edge of a glyph cell of `font`.
    fn baseline_offset(&self, baseline: Baseline, font: &MultiMonoFont) -> (r: i32)
        ensures
            r as int == spec_baseline_offset(baseline, *font),
            0 <= r <= 255,
    {
        match baseline {
            Baseline::Top => 0,
            Baseline::Bottom => font.character_size.height.saturating_sub(1) as i32,
            Baseline::Middle => (font.character_size.height.saturating_sub(1) / 2) as i32,
            Baseline::Alphabetic => font.baseline as i32,
        }
    }

    /// The machine-size conditions under which measuring or drawing
    /// `text` at `position` stays on the pixel grid.
    pub open spec fn measure_fits(self, text: Seq<char>, position: Point) -> bool {
        &&& spec_total_advance(self.fonts@, text) <= i32::MAX as int
        &&& position.x + spec_total_advance(self.fonts@, text) <= i32::MAX as int
        &&& position.y - 255 >= i32::MIN as int
    }

    /// Walks the string, resolving each character's font, and reports
    /// the box the glyph cells would cover and the cursor position after
    /// the string. Emits nothing and never fails.
    pub fn measure_string(&self, text: &str, position: Point, baseline: Baseline) -> (r:
        TextMetrics)
        requires
            self.wf(),
            self.measure_fits(text@, position),
        ensures
            r.next_position == (Point {
                x: (position.x + spec_text_width(self.fonts@, text@)) as i32,
                y: position.y,
            }),
            r.bounding_box == (Rectangle {
                top_left: Point {
                    x: position.x,
                    y: (position.y - spec_max_baseline_offset(self.fonts@, text@, baseline)) as i32,
                },
                size: Size {
                    width: spec_text_width(self.fonts@, text@) as u32,
                    height: spec_text_height(self.fonts@, text@) as u32,
                },
            }),
    {
        let ghost fonts = self.fonts@;
        let n = text.unicode_len();
        let mut bb_width: u32 = 0;
        let mut bb_height: u32 = 0;
        let mut baseline_max: i32 = 0;
        let mut last_font: usize = 0;
        let mut i: usize = 0;
        proof {
            assert(text@.take(0) =~= Seq::<char>::empty());
        }
        while i < n
            invariant
                self.wf(),
                fonts == self.fonts@,
                n == text@.len(),
                0 <= i <= n,
                self.measure_fits(text@, position),
                bb_width as int == spec_total_advance(fonts, text@.take(i as int)),
                bb_height as int == spec_text_height(fonts, text@.take(i as int)),
                baseline_max as int == spec_max_baseline_offset(fonts, text@.take(i as int), baseline),
                0 <= baseline_max <= 255,
                i > 0 ==> last_font as int == spec_font_index(fonts, text@[i as int - 1]),
                i == 0 ==> last_font == 0,
                last_font < fonts.len(),
            decreases n - i,
        {
            let c = text.get_char(i);
            let fi = self.get_font_info(c);
            proof {
                assert(text@.take(i as int + 1).drop_last() =~= text@.take(i as int));
                assert(text@.take(i as int + 1).last() == text@[i as int]);
                lemma_advance_monotone(fonts, text@, i as int + 1);
                lemma_advance_monotone(fonts, text@, i as int);
            }
            let f = &self.fonts[fi];
            let adv = f.character_size.width as u32 + f.character_spacing as u32;
            bb_width = bb_width + adv;
            let h = f.character_size.height as u32;
            if h > bb_height {
                bb_height = h;
            }
            let off = self.baseline_offset(baseline, f);
            if off > baseline_max {
                baseline_max = off;
            }
            last_font = fi;
            i = i + 1;
        }
        proof {
            assert(text@.take(n as int) =~= text@);
        }
        let bb_width = if n > 0 {
            let sp = self.fonts[last_font].character_spacing as u32;
            proof {
                assert(text@.len() > 0);
                assert(text@[n as int - 1] == text@.last());
                lemma_advance_nonneg(fonts, text@.drop_last());
                assert(text@.drop_last() =~= text@.take(n as int - 1));
                lemma_advance_monotone(fonts, text@, n as int - 1);
            }
            bb_width - sp
        } else {
            bb_width
        };
        proof {
            assert(bb_width as int == spec_text_width(fonts, text@));
        }
        TextMetrics {
            bounding_box: Rectangle {
                top_left: Point { x: position.x, y: position.y - baseline_max },
                size: Size { width: bb_width, height: bb_height },
            },
            next_position: Point { x: position.x + bb_width as i32, y: position.y },
        }
    }

    /// The style's cached line height; resolved once at construction,
    /// never recomputed.
    pub fn line_height(&self) -> (r: u32)
        ensures
            r == self.line_height as u32,
    {
        self.line_height as u32
    }

    /// The draw steps for one string, binary-composited: glyphs in slot
    /// order, each followed, when its font declares spacing and a
    /// background is set, by a background fill of the spacing strip.
    pub open spec fn spec_draw_plan(self, text: Seq<char>, position: Point, baseline: Baseline)
        -> Seq<DrawCommand>
        decreases text.len(),
    {
        if text.len() == 0 {
            Seq::empty()
        } else {
            self.spec_draw_plan(text.drop_last(), position, baseline) + self.spec_char_commands(
                text.last(),
                Point {
                    x: (position.x + spec_total_advance(self.fonts@, text.drop_last())) as i32,
                    y: position.y,
                },
                baseline,
            )
        }
    }

    /// The draw steps for one character at a given cursor: its glyph
    /// cell, composited with its top-left corner lifted by the baseline
    /// offset, then, when the font declares spacing and a background is
    /// set, a fill of the spacing strip at line height.
    pub open spec fn spec_char_commands(self, c: char, cursor: Point, baseline: Baseline) -> Seq<
        DrawCommand,
    > {
        let fi = spec_font_index(self.fonts@, c);
        let f = self.fonts@[fi];
        let glyph_cmd = DrawCommand::Glyph {
            font_index: fi as usize,
            area: f.spec_glyph_area(c),
            position: Point {
                x: cursor.x,
                y: (cursor.y - spec_baseline_offset(baseline, f)) as i32,
            },
        };
        let after_x = cursor.x + f.character_size.width as int;
        if f.character_spacing > 0 && self.background_color is Some {
            seq![
                glyph_cmd,
                DrawCommand::Fill {
                    area: Rectangle {
                        top_left: Point { x: after_x as i32, y: cursor.y },
                        size: Size {
                            width: f.character_spacing as u32,
                            height: self.line_height as u32,
                        },
                    },
                },
            ]
        } else {
            seq![glyph_cmd]
        }
    }

    /// Walks the string and collects the binary draw steps, advancing
    /// the cursor by cell width plus declared spacing for every
    /// character.
    fn draw_string_binary(&self, text: &str, position: Point, baseline: Baseline) -> (r: (
        Point,
        Vec<DrawCommand>,
    ))
        requires
            self.wf(),
            self.measure_fits(text@, position),
        ensures
            r.0 == (Point {
                x: (position.x + spec_total_advance(self.fonts@, text@)) as i32,
                y: position.y,
            }),
            r.1@ == self.spec_draw_plan(text@, position, baseline),
    {
        let ghost fonts = self.fonts@;
        let n = text.unicode_len();
        let mut cmds: Vec<DrawCommand> = Vec::new();
        let mut x: i32 = position.x;
        let mut i: usize = 0;
        proof {
            assert(text@.take(0) =~= Seq::<char>::empty());
        }
        while i < n
            invariant
                self.wf(),
                fonts == self.fonts@,
                n == text@.len(),
                0 <= i <= n,
                self.measure_fits(text@, position),
                x as int == position.x + spec_total_advance(fonts, text@.take(i as int)),
                cmds@ == self.spec_draw_plan(text@.take(i as int), position, baseline),
            decreases n - i,
        {
            let c = text.get_char(i);
            let fi = self.get_font_info(c);
            proof {
                assert(text@.take(i as int + 1).drop_last() =~= text@.take(i as int));
                assert(text@.take(i as int + 1).last() == text@[i as int]);
                lemma_advance_monotone(fonts, text@, i as int);
                lemma_advance_monotone(fonts, text@, i as int + 1);
            }
            let off = self.baseline_offset(baseline, &self.fonts[fi]);
            let glyph = self.fonts[fi].glyph(c);
            let ghost cursor = Point { x: x, y: position.y };
            let cmd = DrawCommand::Glyph {
                font_index: fi,
                area: glyph.parent_area(),
                position: Point { x: x, y: position.y - off },
            };
            cmds.push(cmd);
            x = x + self.fonts[fi].character_size.width as i32;
            let spacing = self.fonts[fi].character_spacing;
            if spacing > 0 && self.background_color.is_some() {
                let fill = DrawCommand::Fill {
                    area: Rectangle {
                        top_left: Point { x: x, y: position.y },
                        size: Size { width: spacing as u32, height: self.line_height as u32 },
                    },
                };
                cmds.push(fill);
            }
            if spacing > 0 {
                x = x + spacing as i32;
            }
            proof {
                let cc = self.spec_char_commands(text@[i as int], cursor, baseline);
                assert(cmds@ =~= self.spec_draw_plan(text@.take(i as int), position, baseline)
                    + cc);
            }
            i = i + 1;
        }
        proof {
            assert(text@.take(n as int) =~= text@);
        }
        (Point { x: x, y: position.y }, cmds)
    }

    /// Draws one string at a position: reports the advanced cursor and
    /// the draw steps that put the string's pixels there. A transparent
    /// style emits no steps and advances by the measured width; any
    /// other color configuration composites every glyph and advances by
    /// the full per-character advance, trailing spacing included.
    pub fn draw_string(&self, text: &str, position: Point, baseline: Baseline) -> (r: (
        Point,
        Vec<DrawCommand>,
    ))
        requires
            self.wf(),
            self.measure_fits(text@, position),
        ensures
            self.spec_is_transparent() ==> r.0 == (Point {
                x: (position.x + spec_text_width(self.fonts@, text@)) as i32,
                y: position.y,
            }) && r.1@ == Seq::<DrawCommand>::empty(),
            !self.spec_is_transparent() ==> r.0 == (Point {
                x: (position.x + spec_total_advance(self.fonts@, text@)) as i32,
                y: position.y,
            }) && r.1@ == self.spec_draw_plan(text@, position, baseline),
    {
        if self.text_color.is_none() && self.background_color.is_none() {
            let tm = self.measure_string(text, position, baseline);
            let dx = tm.bounding_box.size.width;
            proof {
                lemma_advance_nonneg(self.fonts@, text@);
                if text@.len() > 0 {
                    lemma_advance_monotone(self.fonts@, text@, text@.len() as int - 1);
                    assert(text@.drop_last() =~= text@.take(text@.len() as int - 1));
                    lemma_font_index_in_range(self.fonts@, text@.last());
                }
            }
            (Point { x: position.x + dx as i32, y: position.y }, Vec::new())
        } else {
            self.draw_string_binary(text, position, baseline)
        }
    }

    /// The vertical offset and fill height a whitespace pad uses: the
    /// line height governs all baselines except the alphabetic one,
    /// which always refers to the first font's baseline and cell height.
    pub open spec fn spec_whitespace_offset(self, baseline: Baseline) -> int {
        let lh = self.line_height as int;
        match baseline {
            Baseline::Top => 0,
            Baseline::Bottom => if lh == 0 {
                0
            } else {
                lh - 1
            },
            Baseline::Middle => (if lh == 0 {
                0
            } else {
                lh - 1
            }) / 2,
            Baseline::Alphabetic => self.fonts@[0].baseline as int,
        }
    }

    /// The fill height that goes with `spec_whitespace_offset`.
    pub open spec fn spec_whitespace_height(self, baseline: Baseline) -> int {
        match baseline {
            Baseline::Alphabetic => self.fonts@[0].character_size.height as int,
            _ => self.line_height as int,
        }
    }

    /// The draw steps of a whitespace pad: one background fill when a
    /// background color is set and the width is not zero, else nothing.
    pub open spec fn spec_whitespace_plan(self, width: int, position: Point, baseline: Baseline)
        -> Seq<DrawCommand> {
        if self.background_color is Some && width != 0 {
            seq![
                DrawCommand::Fill {
                    area: Rectangle {
                        top_left: Point {
                            x: position.x,
                            y: (position.y - self.spec_whitespace_offset(baseline)) as i32,
                        },
                        size: Size {
                            width: width as u32,
                            height: self.spec_whitespace_height(baseline) as u32,
                        },
                    },
                },
            ]
        } else {
            Seq::empty()
        }
    }

    /// The draw steps of one string: none for a transparent style, the
    /// full per-character plan otherwise.
    pub open spec fn spec_string_plan(self, text: Seq<char>, position: Point, baseline: Baseline)
        -> Seq<DrawCommand> {
        if self.spec_is_transparent() {
            Seq::empty()
        } else {
            self.spec_draw_plan(text, position, baseline)
        }
    }

    /// How far drawing one string advances the cursor: the measured
    /// width for a transparent style, the full advance otherwise.
    pub open spec fn spec_string_advance(self, text: Seq<char>) -> int {
        if self.spec_is_transparent() {
            spec_text_width(self.fonts@, text)
        } else {
            spec_total_advance(self.fonts@, text)
        }
    }

    /// Draws a whitespace pad of the given pixel width: fills it with
    /// the background color when one is set and the width is not zero,
    /// else touches nothing; always advances the cursor by the width.
    pub fn draw_whitespace(&self, width: u32, position: Point, baseline: Baseline) -> (r: (
        Point,
        Vec<DrawCommand>,
    ))
        requires
            self.wf(),
            width <= i32::MAX as int,
            position.x + width <= i32::MAX as int,
            position.y - 255 >= i32::MIN as int,
        ensures
            r.0 == (Point { x: (position.x + width) as i32, y: position.y }),
            r.1@ == self.spec_whitespace_plan(width as int, position, baseline),
    {
        let (offset_y, height) = match baseline {
            Baseline::Top => (0i32, self.line_height as u32),
            Baseline::Bottom => (
                self.line_height.saturating_sub(1) as i32,
                self.line_height as u32,
            ),
            Baseline::Middle => (
                (self.line_height.saturating_sub(1) / 2) as i32,
                self.line_height as u32,
            ),
            Baseline::Alphabetic => (
                self.fonts[0].baseline as i32,
                self.fonts[0].character_size.height as u32,
            ),
        };
        let mut cmds: Vec<DrawCommand> = Vec::new();
        if width != 0 {
            if self.background_color.is_some() {
                cmds.push(
                    DrawCommand::Fill {
                        area: Rectangle {
                            top_left: Point { x: position.x, y: position.y - offset_y },
                            size: Size { width, height },
                        },
                    },
                );
                proof {
                    assert(cmds@ =~= seq![
                        DrawCommand::Fill {
                            area: Rectangle {
                                top_left: Point {
                                    x: position.x,
                                    y: (position.y - self.spec_whitespace_offset(baseline)) as i32,
                                },
                                size: Size {
                                    width: width,
                                    height: self.spec_whitespace_height(baseline) as u32,
                                },
                            },
                        },
                    ]);
                }
            }
        }
        (Point { x: position.x + width as i32, y: position.y }, cmds)
    }

    /// Creates a text style with transparent background.
    pub fn new(font_list: Vec<MultiMonoFont>, line_height: MultiMonoLineHeight, text_color: C)
        -> (r: Self)
        requires
            forall|i: int| 0 <= i < font_list@.len() ==> (#[trigger] font_list@[i]).wf(),
        ensures
            r.wf(),
            r.text_color == Some(text_color),
            r.background_color is None,
            font_list@.len() > 0 ==> r.fonts@ == font_list@,
            font_list@.len() == 0 ==> r.fonts@.len() == 1 && is_sentinel_font(r.fonts@[0]),
            r.line_height as int == spec_line_height(line_height, r.fonts@),
    {
        MultiMonoTextStyleBuilder::new().font(font_list, line_height).text_color(
            text_color,
        ).build()
    }

    /// Replaces the text color.
    pub fn set_text_color(&mut self, text_color: Option<C>)
        ensures
            final(self).text_color == text_color,
            final(self).background_color == old(self).background_color,
            final(self).fonts == old(self).fonts,
            final(self).line_height == old(self).line_height,
    {
        self.text_color = text_color;
    }

    /// Replaces the background color.
    pub fn set_background_color(&mut self, background_color: Option<C>)
        ensures
            final(self).background_color == background_color,
            final(self).text_color == old(self).text_color,
            final(self).fonts == old(self).fonts,
            final(self).line_height == old(self).line_height,
    {
        self.background_color = background_color;
    }
}

impl<C: Copy> Clone for MultiMonoTextStyle<C> {
    /// The copy keeps the colors and line height and holds fonts with
    /// the same atlases, geometry and mappings.
    fn clone(&self) -> (r: Self)
        ensures
            r.text_color == self.text_color,
            r.background_color == self.background_color,
            r.line_height == self.line_height,
            r.fonts@.len() == self.fonts@.len(),
            forall|i: int|
                0 <= i < self.fonts@.len() ==> (#[trigger] self.fonts@[i]).eqv(r.fonts@[i]),
            self.wf() ==> r.wf(),
    {
        let n = self.fonts.len();
        let mut fonts: Vec<MultiMonoFont> = Vec::new();
        let mut i: usize = 0;
        while i < n
            invariant
                n == self.fonts@.len(),
                0 <= i <= n,
                fonts@.len() == i,
                forall|j: int| 0 <= j < i ==> (#[trigger] self.fonts@[j]).eqv(fonts@[j]),
            decreases n - i,
        {
            fonts.push(self.fonts[i].clone_font());
            i = i + 1;
        }
        let r = MultiMonoTextStyle {
            text_color: self.text_color,
            background_color: self.background_color,
            fonts,
            line_height: self.line_height,
        };
        proof {
            if self.wf() {
                assert forall|j: int| 0 <= j < r.fonts@.len() implies (#[trigger] r.fonts@[j]).wf()
                    by {
                    assert(self.fonts@[j].eqv(r.fonts@[j]));
                    assert(self.fonts@[j].wf());
                }
            }
        }
        r
    }
}

/// Law: the cursor advance that measuring reports equals the advance
/// that drawing produces, whatever colors are configured — provided the
/// string is empty or the font of its last character declares no
/// inter-glyph spacing, since drawing advances past a trailing spacing
/// strip that measuring deducts.
pub proof fn lemma_measure_draw_advance_agree(fonts: Seq<MultiMonoFont>, text: Seq<char>)
    requires
        fonts.len() > 0,
        text.len() == 0 || fonts[spec_font_index(fonts, text.last())].character_spacing == 0,
    ensures
        spec_text_width(fonts, text) == spec_total_advance(fonts, text),
{
}

/// A measured width is never negative and never exceeds the total
/// advance.
pub proof fn lemma_text_width_bounds(fonts: Seq<MultiMonoFont>, text: Seq<char>)
    requires
        fonts.len() > 0,
    ensures
        0 <= spec_text_width(fonts, text) <= spec_total_advance(fonts, text),
{
    if text.len() > 0 {
        lemma_advance_nonneg(fonts, text.drop_last());
        lemma_font_index_in_range(fonts, text.last());
    }
}

/// Text style builder for lists of monospaced fonts.
///
/// Settings accumulate; a style comes out of [`build`]. A builder made
/// with [`new`] starts from a single zero-sized sentinel font, no colors
/// and line height zero, so only the font list is mandatory.
///
/// [`build`]: MultiMonoTextStyleBuilder::build()
/// [`new`]: MultiMonoTextStyleBuilder::new()
#[derive(Debug)]
pub struct MultiMonoTextStyleBuilder<C> {
    style: MultiMonoTextStyle<C>,
}

impl<C> MultiMonoTextStyleBuilder<C> {
    /// The style the builder would currently build.
    pub closed spec fn spec_style(self) -> MultiMonoTextStyle<C> {
        self.style
    }

    /// Creates a new text style builder.
    pub fn new() -> (r: Self)
        ensures
            r.spec_style().wf(),
            r.spec_style().text_color is None,
            r.spec_style().background_color is None,
            r.spec_style().line_height == 0 as ChSzTy,
            r.spec_style().fonts@.len() == 1,
            is_sentinel_font(r.spec_style().fonts@[0]),
    {
        let mut fonts: Vec<MultiMonoFont> = Vec::new();
        fonts.push(crate::null_font());
        MultiMonoTextStyleBuilder {
            style: MultiMonoTextStyle {
                fonts,
                background_color: None,
                text_color: None,
                line_height: 0,
            },
        }
    }

    /// Sets the font list and resolves the line height over it. An
    /// empty list is replaced by the single zero-sized sentinel font, so
    /// the aggregation never runs over nothing.
    pub fn font(self, font_list: Vec<MultiMonoFont>, line_height: MultiMonoLineHeight) -> (r:
        Self)
        requires
            forall|i: int| 0 <= i < font_list@.len() ==> (#[trigger] font_list@[i]).wf(),
        ensures
            r.spec_style().wf(),
            r.spec_style().text_color == self.spec_style().text_color,
            r.spec_style().background_color == self.spec_style().background_color,
            font_list@.len() > 0 ==> r.spec_style().fonts@ == font_list@,
            font_list@.len() == 0 ==> r.spec_style().fonts@.len() == 1 && is_sentinel_font(
                r.spec_style().fonts@[0],
            ),
            r.spec_style().line_height as int == spec_line_height(
                line_height,
                r.spec_style().fonts@,
            ),
    {
        let fonts = if font_list.len() == 0 {
            let mut v: Vec<MultiMonoFont> = Vec::new();
            v.push(crate::null_font());
            v
        } else {
            font_list
        };
        let line_height = get_line_height(line_height, &fonts);
        MultiMonoTextStyleBuilder {
            style: MultiMonoTextStyle {
                fonts,
                background_color: self.style.background_color,
                text_color: self.style.text_color,
                line_height,
            },
        }
    }

    /// Resets the text color to transparent.
    pub fn reset_text_color(self) -> (r: Self)
        ensures
            r.spec_style().text_color is None,
            r.spec_style().background_color == self.spec_style().background_color,
            r.spec_style().fonts == self.spec_style().fonts,
            r.spec_style().line_height == self.spec_style().line_height,
    {
        let mut s = self;
        s.style.text_color = None;
        s
    }

    /// Resets the background color to transparent.
    pub fn reset_background_color(self) -> (r: Self)
        ensures
            r.spec_style().background_color is None,
            r.spec_style().text_color == self.spec_style().text_color,
            r.spec_style().fonts == self.spec_style().fonts,
            r.spec_style().line_height == self.spec_style().line_height,
    {
        let mut s = self;
        s.style.background_color = None;
        s
    }

    /// Sets the text color.
    pub fn text_color(self, text_color: C) -> (r: Self)
        ensures
            r.spec_style().text_color == Some(text_color),
            r.spec_style().background_color == self.spec_style().background_color,
            r.spec_style().fonts == self.spec_style().fonts,
            r.spec_style().line_height == self.spec_style().line_height,
    {
        let mut s = self;
        s.style.text_color = Some(text_color);
        s
    }

    /// Re-resolves the line height over the current font list.
    pub fn line_height(self, line_height: MultiMonoLineHeight) -> (r: Self)
        ensures
            r.spec_style().line_height as int == spec_line_height(
                line_height,
                self.spec_style().fonts@,
            ),
            r.spec_style().text_color == self.spec_style().text_color,
            r.spec_style().background_color == self.spec_style().background_color,
            r.spec_style().fonts == self.spec_style().fonts,
    {
        let mut s = self;
        s.style.line_height = get_line_height(line_height, &s.style.fonts);
        s
    }

    /// Sets the background color.
    pub fn background_color(self, background_color: C) -> (r: Self)
        ensures
            r.spec_style().background_color == Some(background_color),
            r.spec_style().text_color == self.spec_style().text_color,
            r.spec_style().fonts == self.spec_style().fonts,
            r.spec_style().line_height == self.spec_style().line_height,
    {
        let mut s = self;
        s.style.background_color = Some(background_color);
        s
    }

    /// Builds the text style.
    pub fn build(self) -> (r: MultiMonoTextStyle<C>)
        ensures
            r == self.spec_style(),
    {
        self.style
    }
}

impl<C: Copy> MultiMonoTextStyleBuilder<C> {
    /// Starts a builder from an existing style, so a modified copy can
    /// be derived from it.
    pub fn from_style(style: &MultiMonoTextStyle<C>) -> (r: Self)
        ensures
            r.spec_style().text_color == style.text_color,
            r.spec_style().background_color == style.background_color,
            r.spec_style().line_height == style.line_height,
            r.spec_style().fonts@.len() == style.fonts@.len(),
            forall|i: int|
                0 <= i < style.fonts@.len() ==> (#[trigger] style.fonts@[i]).eqv(
                    r.spec_style().fonts@[i],
                ),
            style.wf() ==> r.spec_style().wf(),
    {
        let n = style.fonts.len();
        let mut fonts: Vec<MultiMonoFont> = Vec::new();
        let mut i: usize = 0;
        while i < n
            invariant
                n == style.fonts@.len(),
                0 <= i <= n,
                fonts@.len() == i,
                forall|j: int|
                    0 <= j < i ==> (#[trigger] style.fonts@[j]).eqv(fonts@[j]),
            decreases n - i,
        {
            fonts.push(style.fonts[i].clone_font());
            i = i + 1;
        }
        let r = MultiMonoTextStyleBuilder {
            style: MultiMonoTextStyle {
                fonts,
                background_color: style.background_color,
                text_color: style.text_color,
                line_height: style.line_height,
            },
        };
        proof {
            if style.wf() {
                assert forall|j: int|
                    0 <= j < r.spec_style().fonts@.len() implies (#[trigger] r.spec_style().fonts@[j]).wf() by {
                    assert(style.fonts@[j].eqv(r.spec_style().fonts@[j]));
                    assert(style.fonts@[j].wf());
                }
            }
        }
        r
    }
}

} // verus!
