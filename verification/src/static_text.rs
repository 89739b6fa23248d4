//! Multi-line, aligned text laid out inside a bounding rectangle.

use vstd::prelude::*;
use vstd::string::StrSliceExecFns;
use crate::geometry::{Point, Rectangle};
use crate::multi_mono_text_style::{
    spec_text_width, spec_total_advance, Baseline, DrawCommand, MultiMonoTextStyle,
};
use crate::multi_mono_text_style::{lemma_advance_nonneg, lemma_text_width_bounds};

verus! {

/// Horizontal placement of each line inside the bounding rectangle.
#[derive(Copy, Clone, Debug, PartialEq, Eq, Structural)]
pub enum Alignment {
    /// Lines start at the rectangle's left edge.
    Left,
    /// Lines are centered between the rectangle's edges.
    Center,
    /// Lines end at the rectangle's right edge.
    Right,
}

/// The text split at line feeds: always at least one line, the line feed
/// characters themselves dropped.
pub open spec fn spec_lines(text: Seq<char>) -> Seq<Seq<char>>
    decreases text.len(),
{
    if text.len() == 0 {
        seq![Seq::empty()]
    } else if text.last() == '\n' {
        spec_lines(text.drop_last()) + seq![Seq::empty()]
    } else {
        let p = spec_lines(text.drop_last());
        p.update(p.len() - 1, p.last().push(text.last()))
    }
}

/// A split has at least one line.
pub proof fn lemma_lines_nonempty(text: Seq<char>)
    ensures
        spec_lines(text).len() >= 1,
    decreases text.len(),
{
    if text.len() > 0 {
        lemma_lines_nonempty(text.drop_last());
    }
}

/// A prefix of the text never splits into more lines than the whole.
pub proof fn lemma_lines_prefix_count(text: Seq<char>, i: int)
    requires
        0 <= i <= text.len(),
    ensures
        spec_lines(text.take(i)).len() <= spec_lines(text).len(),
    decreases text.len() - i,
{
    if i < text.len() {
        lemma_lines_prefix_count(text, i + 1);
        assert(text.take(i + 1).drop_last() =~= text.take(i));
        lemma_lines_nonempty(text.take(i));
    } else {
        assert(text.take(i) =~= text);
    }
}

/// A line that a prefix of the text has already completed reads the same
/// in the split of the whole text.
pub proof fn lemma_lines_prefix_stable(text: Seq<char>, i: int, k: int)
    requires
        0 <= i <= text.len(),
        0 <= k < spec_lines(text.take(i)).len() - 1,
    ensures
        spec_lines(text.take(i))[k] == spec_lines(text)[k],
    decreases text.len() - i,
{
    if i == text.len() {
        assert(text.take(i) =~= text);
    } else {
        assert(text.take(i + 1).drop_last() =~= text.take(i));
        lemma_lines_nonempty(text.take(i));
        lemma_lines_prefix_stable(text, i + 1, k);
    }
}

/// The line with a single trailing carriage return removed; any other
/// line unchanged.
pub open spec fn strip_cr(line: Seq<char>) -> Seq<char> {
    if line.len() > 0 && line.last() == '\r' {
        line.drop_last()
    } else {
        line
    }
}

/// Signed halving that rounds towards zero.
pub open spec fn div2_trunc(v: int) -> int {
    if v >= 0 {
        v / 2
    } else {
        -((-v) / 2)
    }
}

/// Halves a signed value, rounding towards zero.
fn half_i32(v: i32) -> (r: i32)
    requires
        v > i32::MIN as int,
    ensures
        r as int == div2_trunc(v as int),
{
    if v >= 0 {
        ((v as u32) / 2) as i32
    } else {
        let m = (-v) as u32;
        -((m / 2) as i32)
    }
}

/// Text laid out in a bounding rectangle.
///
/// The text is split at line feeds; each line is anchored horizontally by
/// the alignment and vertically by the baseline mode, measured with the
/// character style, padded with background fills to cover the
/// rectangle's full width, and drawn with the style.
#[derive(Debug)]
pub struct StaticText<C> {
    /// The string.
    pub text: String,

    /// The bounding rectangle.
    pub rectangle: Rectangle,

    /// The character style.
    pub character_style: MultiMonoTextStyle<C>,

    /// Horizontal text alignment.
    pub alignment: Alignment,

    /// Text baseline.
    pub baseline: Baseline,
}

impl<C> StaticText<C> {
    /// Creates a text drawable with the default alignment and baseline.
    pub fn new(text: &str, rectangle: Rectangle, character_style: MultiMonoTextStyle<C>) -> (r:
        Self)
        ensures
            r.text@ == text@,
            r.rectangle == rectangle,
            r.character_style == character_style,
            r.alignment == Alignment::Left,
            r.baseline == Baseline::Alphabetic,
    {
        StaticText {
            text: text.to_owned(),
            rectangle,
            character_style,
            alignment: Alignment::Left,
            baseline: Baseline::Alphabetic,
        }
    }

    /// Creates a text drawable with the given alignment and baseline.
    pub fn with_style(
        text: &str,
        rectangle: Rectangle,
        character_style: MultiMonoTextStyle<C>,
        alignment: Alignment,
        baseline: Baseline,
    ) -> (r: Self)
        ensures
            r.text@ == text@,
            r.rectangle == rectangle,
            r.character_style == character_style,
            r.alignment == alignment,
            r.baseline == baseline,
    {
        StaticText { text: text.to_owned(), rectangle, character_style, alignment, baseline }
    }

    /// Moves the bounding rectangle by the given offset.
    pub fn translate_mut(&mut self, by: Point)
        requires
            i32::MIN <= old(self).rectangle.top_left.x + by.x <= i32::MAX,
            i32::MIN <= old(self).rectangle.top_left.y + by.y <= i32::MAX,
        ensures
            final(self).rectangle.top_left.x as int == old(self).rectangle.top_left.x + by.x,
            final(self).rectangle.top_left.y as int == old(self).rectangle.top_left.y + by.y,
            final(self).rectangle.size == old(self).rectangle.size,
            final(self).text == old(self).text,
            final(self).character_style == old(self).character_style,
            final(self).alignment == old(self).alignment,
            final(self).baseline == old(self).baseline,
    {
        self.rectangle.top_left.x = self.rectangle.top_left.x + by.x;
        self.rectangle.top_left.y = self.rectangle.top_left.y + by.y;
    }

    /// The vertical anchor of the first line: the rectangle's top edge
    /// for the top baseline; for the bottom and alphabetic baselines the
    /// block ends on the rectangle's bottom row; the middle baseline
    /// centers the block vertically.
    pub open spec fn spec_base_y(self) -> int {
        let off = (self.character_style.line_height as int) * (spec_lines(self.text@).len() - 1);
        let top = self.rectangle.top_left.y as int;
        let h = self.rectangle.size.height as int;
        match self.baseline {
            Baseline::Top => top,
            Baseline::Bottom => top + h - 1 - off,
            Baseline::Alphabetic => top + h - 1 - off,
            Baseline::Middle => top + div2_trunc(h - 1 - off),
        }
    }

    /// The horizontal anchor of a line: the left edge, the right edge
    /// less the measured width, or the midpoint offset `(box width -
    /// line width) / 2` for centered text.
    pub open spec fn spec_anchor_x(self, line: Seq<char>) -> int {
        let left = self.rectangle.top_left.x as int;
        let w = spec_text_width(self.character_style.fonts@, line);
        let rw = self.rectangle.size.width as int;
        match self.alignment {
            Alignment::Left => left,
            Alignment::Right => left + rw - w,
            Alignment::Center => left + div2_trunc(rw - w),
        }
    }

    /// Where line `j` is anchored: each line sits exactly one line
    /// height below the one before it.
    pub open spec fn spec_anchor(self, j: int) -> Point {
        Point {
            x: self.spec_anchor_x(strip_cr(spec_lines(self.text@)[j])) as i32,
            y: (self.spec_base_y() + j * (self.character_style.line_height as int)) as i32,
        }
    }

    /// The machine-size conditions under which the whole layout stays on
    /// the pixel grid: the rectangle, the line count, the block height
    /// and every line's advance stay within a generous margin of the
    /// signed 32-bit range.
    pub open spec fn layout_fits(self) -> bool {
        let s = self.character_style;
        &&& -0x2000_0000 <= self.rectangle.top_left.x <= 0x2000_0000
        &&& -0x2000_0000 <= self.rectangle.top_left.y <= 0x2000_0000
        &&& self.rectangle.size.width <= 0x2000_0000
        &&& self.rectangle.size.height <= 0x2000_0000
        &&& spec_lines(self.text@).len() - 1 <= 0x2000_0000
        &&& (s.line_height as int) * (spec_lines(self.text@).len() - 1) <= 0x2000_0000
        &&& forall|j: int|
            0 <= j < spec_lines(self.text@).len() ==> spec_total_advance(
                s.fonts@,
                strip_cr(#[trigger] spec_lines(self.text@)[j]),
            ) <= 0x2000_0000
    }

    /// Splits the text into its lines and anchors each one: the line
    /// contents with a trailing carriage return stripped, and the
    /// anchor position that alignment and baseline give the line.
    pub fn lines(&self) -> (r: Vec<(String, Point)>)
        requires
            self.character_style.wf(),
            self.layout_fits(),
        ensures
            r@.len() == spec_lines(self.text@).len(),
            forall|j: int|
                0 <= j < r@.len() ==> (#[trigger] r@[j]).0@ == strip_cr(spec_lines(self.text@)[j])
                    && r@[j].1 == self.spec_anchor(j),
    {
        let text: &str = self.text.as_str();
        let n = text.unicode_len();
        proof {
            assert(text@.take(0) =~= Seq::<char>::empty());
            lemma_lines_nonempty(text@);
        }
        // count the line feeds to place the first line vertically
        let mut count: usize = 0;
        let mut i: usize = 0;
        while i < n
            invariant
                n == text@.len(),
                0 <= i <= n,
                count <= i,
                spec_lines(text@.take(i as int)).len() >= 1,
                count as int == spec_lines(text@.take(i as int)).len() - 1,
            decreases n - i,
        {
            proof {
                assert(text@.take(i as int + 1).drop_last() =~= text@.take(i as int));
                assert(text@.take(i as int + 1).last() == text@[i as int]);
            }
            if text.get_char(i) == '\n' {
                count = count + 1;
            }
            i = i + 1;
        }
        proof {
            assert(text@.take(n as int) =~= text@);
        }
        let lh: i32 = self.character_style.line_height as i32;
        proof {
            vstd::arithmetic::mul::lemma_mul_nonnegative(lh as int, count as int);
        }
        let offset_y: i32 = lh * count as i32;
        let top = self.rectangle.top_left.y;
        let height = self.rectangle.size.height as i32;
        let base_y: i32 = match self.baseline {
            Baseline::Top => top,
            Baseline::Bottom => top + height - 1 - offset_y,
            Baseline::Alphabetic => top + height - 1 - offset_y,
            Baseline::Middle => top + half_i32(height - 1 - offset_y),
        };
        let mut out: Vec<(String, Point)> = Vec::new();
        let mut st: usize = 0;
        let mut i: usize = 0;
        proof {
            assert(text@.take(0) =~= Seq::<char>::empty());
            assert(text@.subrange(0, 0) =~= Seq::<char>::empty());
        }
        while i < n
            invariant
                self.character_style.wf(),
                self.layout_fits(),
                text@ == self.text@,
                n == text@.len(),
                0 <= st <= i <= n,
                base_y as int == self.spec_base_y(),
                lh as int == self.character_style.line_height as int,
                count as int == spec_lines(text@).len() - 1,
                out@.len() == spec_lines(text@.take(i as int)).len() - 1,
                spec_lines(text@.take(i as int)).last() == text@.subrange(st as int, i as int),
                forall|k: int|
                    0 <= k < out@.len() ==> (#[trigger] out@[k]).0@ == strip_cr(
                        spec_lines(text@.take(i as int))[k],
                    ) && out@[k].1.x as int == self.spec_anchor_x(out@[k].0@) && out@[k].1.y as int
                        == self.spec_base_y() + k * (self.character_style.line_height as int),
            decreases n - i,
        {
            proof {
                assert(text@.take(i as int + 1).drop_last() =~= text@.take(i as int));
                assert(text@.take(i as int + 1).last() == text@[i as int]);
                lemma_lines_nonempty(text@.take(i as int));
                lemma_lines_prefix_count(text@, i as int + 1);
            }
            if text.get_char(i) == '\n' {
                proof {
                    assert(spec_lines(text@.take(i as int + 1)) == spec_lines(
                        text@.take(i as int)) + seq![Seq::<char>::empty()]);
                    assert(text@.subrange(i as int + 1, i as int + 1) =~= Seq::<char>::empty());
                    lemma_lines_prefix_stable(text@, i as int + 1, out@.len() as int);
                    assert(spec_lines(text@)[out@.len() as int] == text@.subrange(
                        st as int,
                        i as int,
                    ));
                }
                let anchored = self.anchored_line(text, st, i, base_y, out.len());
                out.push(anchored);
                st = i + 1;
            } else {
                proof {
                    let p = spec_lines(text@.take(i as int));
                    assert(spec_lines(text@.take(i as int + 1)) == p.update(
                        p.len() - 1,
                        p.last().push(text@[i as int]),
                    ));
                    assert(text@.subrange(st as int, i as int + 1) =~= text@.subrange(
                        st as int,
                        i as int,
                    ).push(text@[i as int]));
                }
            }
            i = i + 1;
        }
        proof {
            assert(text@.take(n as int) =~= text@);
            lemma_lines_nonempty(text@);
            assert(spec_lines(text@)[out@.len() as int] == text@.subrange(st as int, n as int));
        }
        let last = self.anchored_line(text, st, n, base_y, out.len());
        out.push(last);
        proof {
            assert forall|j: int| 0 <= j < out@.len() implies (#[trigger] out@[j]).0@ == strip_cr(
                spec_lines(self.text@)[j],
            ) && out@[j].1 == self.spec_anchor(j) by {
                assert(out@[j].0@ == strip_cr(spec_lines(self.text@)[j]));
                assert(out@[j].1.x as int == self.spec_anchor_x(out@[j].0@));
                assert(out@[j].1.y as int == self.spec_base_y() + j * (
                self.character_style.line_height as int));
            }
        }
        out
    }

    /// The draw steps of line `j`: a leading pad where the anchor sits
    /// right of the rectangle's left edge, the line itself, and a
    /// trailing pad where the cursor stops left of the right edge, so
    /// the full row inside the rectangle receives background treatment.
    pub open spec fn spec_line_plan(self, j: int) -> Seq<DrawCommand> {
        let s = self.character_style;
        let line = strip_cr(spec_lines(self.text@)[j]);
        let anchor = self.spec_anchor(j);
        let left = self.rectangle.top_left.x as int;
        let right = left + self.rectangle.size.width as int;
        let lead = if anchor.x > left {
            s.spec_whitespace_plan(
                anchor.x - left,
                Point { x: left as i32, y: anchor.y },
                self.baseline,
            )
        } else {
            Seq::empty()
        };
        let body = s.spec_string_plan(line, anchor, self.baseline);
        let next_x = anchor.x + s.spec_string_advance(line);
        let trail = if next_x < right {
            s.spec_whitespace_plan(
                right - next_x,
                Point { x: next_x as i32, y: anchor.y },
                self.baseline,
            )
        } else {
            Seq::empty()
        };
        lead + body + trail
    }

    /// The draw steps of the first `j` lines, in order.
    pub open spec fn spec_plan_upto(self, j: int) -> Seq<DrawCommand>
        decreases j,
    {
        if j <= 0 {
            Seq::empty()
        } else {
            self.spec_plan_upto(j - 1) + self.spec_line_plan(j - 1)
        }
    }

    /// The cursor position drawing the whole layout reports: the last
    /// line's cursor, pushed out to the right edge where a trailing pad
    /// was drawn.
    pub open spec fn spec_final_position(self) -> Point {
        let j = spec_lines(self.text@).len() - 1;
        let anchor = self.spec_anchor(j);
        let line = strip_cr(spec_lines(self.text@)[j]);
        let next_x = anchor.x + self.character_style.spec_string_advance(line);
        let right = self.rectangle.top_left.x as int + self.rectangle.size.width as int;
        Point {
            x: (if next_x < right {
                right
            } else {
                next_x
            }) as i32,
            y: anchor.y,
        }
    }

    /// Lays the text out: pads, draws and pads each line in turn, and
    /// reports the final cursor position together with all draw steps.
    /// Replaying the steps in order realizes the layout; a caller that
    /// stops at a failing step leaves exactly the earlier steps' pixels
    /// in place, as the layout makes no attempt at recovery.
    #[verifier::rlimit(100)]
    pub fn draw(&self) -> (r: (Point, Vec<DrawCommand>))
        requires
            self.character_style.wf(),
            self.layout_fits(),
        ensures
            r.0 == self.spec_final_position(),
            r.1@ == self.spec_plan_upto(spec_lines(self.text@).len() as int),
    {
        proof {
            lemma_lines_nonempty(self.text@);
        }
        let ls = self.lines();
        let m = ls.len();
        let left = self.rectangle.top_left.x;
        let right: i32 = left + self.rectangle.size.width as i32;
        let mut cmds: Vec<DrawCommand> = Vec::new();
        let mut next_position = Point { x: 0, y: 0 };
        let mut j: usize = 0;
        while j < m
            invariant
                self.character_style.wf(),
                self.layout_fits(),
                m == spec_lines(self.text@).len(),
                ls@.len() == m,
                forall|k: int|
                    0 <= k < m ==> (#[trigger] ls@[k]).0@ == strip_cr(spec_lines(self.text@)[k])
                        && ls@[k].1 == self.spec_anchor(k),
                left == self.rectangle.top_left.x,
                right as int == left as int + self.rectangle.size.width as int,
                0 <= j <= m,
                cmds@ == self.spec_plan_upto(j as int),
                j > 0 ==> ({
                    let anchor = self.spec_anchor(j - 1);
                    let line = strip_cr(spec_lines(self.text@)[j - 1]);
                    let next_x = anchor.x + self.character_style.spec_string_advance(line);
                    next_position == (Point {
                        x: (if next_x < right as int {
                            right as int
                        } else {
                            next_x
                        }) as i32,
                        y: anchor.y,
                    })
                }),
            decreases m - j,
        {
            let pair = &ls[j];
            let anchor = pair.1;
            let ghost line = strip_cr(spec_lines(self.text@)[j as int]);
            let ghost s = self.character_style;
            proof {
                assert(ls@[j as int].0@ == line);
                lemma_advance_nonneg(s.fonts@, line);
                lemma_text_width_bounds(s.fonts@, line);
                vstd::arithmetic::mul::lemma_mul_inequality(
                    j as int,
                    m as int - 1,
                    s.line_height as int,
                );
                vstd::arithmetic::mul::lemma_mul_nonnegative(j as int, s.line_height as int);
                vstd::arithmetic::mul::lemma_mul_nonnegative(s.line_height as int, m as int - 1);
                vstd::arithmetic::mul::lemma_mul_is_commutative(m as int - 1, s.line_height as int);
            }
            if anchor.x > left {
                let (_pad_end, mut pad) = self.character_style.draw_whitespace(
                    (anchor.x - left) as u32,
                    Point { x: left, y: anchor.y },
                    self.baseline,
                );
                cmds.append(&mut pad);
            }
            let (next, mut body) = self.character_style.draw_string(
                pair.0.as_str(),
                anchor,
                self.baseline,
            );
            cmds.append(&mut body);
            proof {
                assert(next.x as int == anchor.x + s.spec_string_advance(line));
            }
            if next.x < right {
                let (_pad_end, mut trail) = self.character_style.draw_whitespace(
                    (right - next.x) as u32,
                    next,
                    self.baseline,
                );
                cmds.append(&mut trail);
                next_position = Point { x: right, y: next.y };
            } else {
                next_position = next;
            }
            proof {
                assert(cmds@ =~= self.spec_plan_upto(j as int) + self.spec_line_plan(j as int));
            }
            j = j + 1;
        }
        (next_position, cmds)
    }

    /// Extracts the line spanning the character positions `st..end`,
    /// strips a trailing carriage return, and anchors it as line number
    /// `j`.
    fn anchored_line(&self, text: &str, st: usize, end: usize, base_y: i32, j: usize) -> (r: (
        String,
        Point,
    ))
        requires
            self.character_style.wf(),
            self.layout_fits(),
            text@ == self.text@,
            0 <= st <= end <= text@.len(),
            j as int <= spec_lines(self.text@).len() - 1,
            spec_total_advance(
                self.character_style.fonts@,
                strip_cr(text@.subrange(st as int, end as int)),
            ) <= 0x2000_0000,
            base_y as int == self.spec_base_y(),
        ensures
            r.0@ == strip_cr(text@.subrange(st as int, end as int)),
            r.1.x as int == self.spec_anchor_x(r.0@),
            r.1.y as int == self.spec_base_y() + j * (self.character_style.line_height as int),
    {
        let e2 = if end > st && text.get_char(end - 1) == '\r' {
            end - 1
        } else {
            end
        };
        proof {
            assert(strip_cr(text@.subrange(st as int, end as int)) =~= text@.subrange(
                st as int,
                e2 as int,
            ));
        }
        let line = text.substring_char(st, e2);
        let ghost lseq = strip_cr(text@.subrange(st as int, end as int));
        proof {
            let fonts = self.character_style.fonts@;
            lemma_advance_nonneg(fonts, lseq);
            lemma_text_width_bounds(fonts, lseq);
            vstd::arithmetic::mul::lemma_mul_inequality(
                j as int,
                spec_lines(self.text@).len() - 1,
                self.character_style.line_height as int,
            );
            vstd::arithmetic::mul::lemma_mul_nonnegative(
                j as int,
                self.character_style.line_height as int,
            );
            vstd::arithmetic::mul::lemma_mul_nonnegative(
                self.character_style.line_height as int,
                spec_lines(self.text@).len() - 1,
            );
        }
        proof {
            vstd::arithmetic::mul::lemma_mul_is_commutative(
                spec_lines(self.text@).len() - 1,
                self.character_style.line_height as int,
            );
        }
        let y: i32 = base_y + (j as i32) * (self.character_style.line_height as i32);
        let left = self.rectangle.top_left.x;
        let x: i32 = match self.alignment {
            Alignment::Left => left,
            Alignment::Right => {
                let m = self.character_style.measure_string(
                    line,
                    Point { x: 0, y: 0 },
                    self.baseline,
                );
                left + self.rectangle.size.width as i32 - m.next_position.x
            },
            Alignment::Center => {
                let m = self.character_style.measure_string(
                    line,
                    Point { x: 0, y: 0 },
                    self.baseline,
                );
                left + half_i32(self.rectangle.size.width as i32 - m.next_position.x)
            },
        };
        (line.to_owned(), Point { x, y })
    }
}

} // verus!
