use multi_mono_font::mapping::StrGlyphMapping;
use multi_mono_font::{
    Alignment, Baseline, CharSize, DrawCommand, MultiMonoFont, MultiMonoLineHeight,
    MultiMonoTextStyle, MultiMonoTextStyleBuilder, Point, Rectangle, Size, StaticText,
};

fn test_font(height: u8, spacing: u8) -> MultiMonoFont {
    MultiMonoFont {
        image_data: vec![0u8; 60 * height as usize / 8],
        image_width: 60,
        character_size: CharSize::new(6, height),
        character_spacing: spacing,
        baseline: 8,
        glyph_mapping: StrGlyphMapping::new("\0az", 0),
    }
}

#[test]
fn glyph_addresses_its_atlas_cell() {
    let font = test_font(10, 0);
    // slot 2 sits in the first row, third column
    assert_eq!(
        font.glyph('c').parent_area(),
        Rectangle::new(Point::new(12, 0), Size::new(6, 10))
    );
    // slot 11 wraps to the second row at ten cells per row
    assert_eq!(
        font.glyph('l').parent_area(),
        Rectangle::new(Point::new(6, 10), Size::new(6, 10))
    );
    // an unmapped character takes the replacement slot, here zero
    assert_eq!(
        font.glyph('!').parent_area(),
        Rectangle::new(Point::new(0, 0), Size::new(6, 10))
    );
}

#[test]
fn zero_width_cell_yields_zero_area_glyph() {
    let mut font = test_font(10, 0);
    font.character_size = CharSize::new(0, 10);
    let area = font.glyph('a').parent_area();
    assert_eq!(area, Rectangle::new(Point::new(0, 0), Size::new(0, 0)));
    // a cell wider than the atlas degenerates the same way
    let mut wide = test_font(10, 0);
    wide.character_size = CharSize::new(64, 10);
    assert_eq!(
        wide.glyph('a').parent_area(),
        Rectangle::new(Point::new(0, 0), Size::new(0, 0))
    );
}

#[test]
fn line_height_policies_resolve_over_the_font_list() {
    let fonts = vec![test_font(12, 0), test_font(32, 0), test_font(24, 0)];
    let max = MultiMonoTextStyle::new(fonts, MultiMonoLineHeight::Max, 1u32);
    assert_eq!(max.line_height(), 32);

    let fonts = vec![test_font(12, 0), test_font(32, 0), test_font(24, 0)];
    let min = MultiMonoTextStyle::new(fonts, MultiMonoLineHeight::Min, 1u32);
    assert_eq!(min.line_height(), 12);

    let fonts = vec![test_font(12, 0), test_font(32, 0), test_font(24, 0)];
    let fixed = MultiMonoTextStyle::new(fonts, MultiMonoLineHeight::Specify(20), 1u32);
    assert_eq!(fixed.line_height(), 20);
}

#[test]
fn measure_string_reports_exact_metrics() {
    let style = MultiMonoTextStyle::new(vec![test_font(10, 1)], MultiMonoLineHeight::Max, 1u32);
    let m = style.measure_string("ab", Point::new(5, 40), Baseline::Alphabetic);
    // two cells of width six, one spacing pixel between them
    assert_eq!(m.next_position, Point::new(5 + 13, 40));
    assert_eq!(m.bounding_box.size, Size::new(13, 10));
    // the alphabetic baseline offset lifts the box by the font's baseline
    assert_eq!(m.bounding_box.top_left, Point::new(5, 40 - 8));
    let empty = style.measure_string("", Point::new(5, 40), Baseline::Top);
    assert_eq!(empty.next_position, Point::new(5, 40));
    assert_eq!(empty.bounding_box.size, Size::new(0, 0));
}

#[test]
fn measure_and_draw_agree_on_cursor_advance() {
    // a font without inter-glyph spacing, measured against all four
    // color configurations
    let build = || {
        MultiMonoTextStyleBuilder::<u32>::new()
            .font(vec![test_font(10, 0)], MultiMonoLineHeight::Max)
    };
    let transparent = build().build();
    let fg = build().text_color(1).build();
    let bg = build().background_color(2).build();
    let both = build().text_color(1).background_color(2).build();
    let p = Point::new(7, 30);
    for style in [transparent, fg, bg, both] {
        let measured = style.measure_string("fade", p, Baseline::Top).next_position;
        let drawn = style.draw_string("fade", p, Baseline::Top).0;
        assert_eq!(measured, drawn);
    }
}

#[test]
fn drawing_twice_gives_identical_plans() {
    let style = MultiMonoTextStyleBuilder::<u32>::new()
        .font(vec![test_font(10, 1)], MultiMonoLineHeight::Max)
        .text_color(1)
        .background_color(2)
        .build();
    let p = Point::new(0, 0);
    let first = style.draw_string("abc", p, Baseline::Top);
    let second = style.draw_string("abc", p, Baseline::Top);
    assert_eq!(first.0, second.0);
    assert_eq!(first.1, second.1);
}

#[test]
fn transparent_style_emits_no_draw_steps() {
    let style = MultiMonoTextStyleBuilder::<u32>::new()
        .font(vec![test_font(10, 1)], MultiMonoLineHeight::Max)
        .build();
    assert!(style.is_transparent());
    let (next, cmds) = style.draw_string("ab", Point::new(5, 40), Baseline::Top);
    assert!(cmds.is_empty());
    // the transparent advance equals the measured width
    assert_eq!(next, Point::new(5 + 13, 40));
}

#[test]
fn draw_string_plans_glyphs_and_spacing_fills() {
    let style = MultiMonoTextStyleBuilder::<u32>::new()
        .font(vec![test_font(10, 1)], MultiMonoLineHeight::Max)
        .text_color(1)
        .background_color(2)
        .build();
    let (next, cmds) = style.draw_string("ab", Point::new(0, 20), Baseline::Top);
    // the opaque advance keeps the trailing spacing
    assert_eq!(next, Point::new(14, 20));
    assert_eq!(
        cmds,
        vec![
            DrawCommand::Glyph {
                font_index: 0,
                area: Rectangle::new(Point::new(0, 0), Size::new(6, 10)),
                position: Point::new(0, 20),
            },
            DrawCommand::Fill {
                area: Rectangle::new(Point::new(6, 20), Size::new(1, 10)),
            },
            DrawCommand::Glyph {
                font_index: 0,
                area: Rectangle::new(Point::new(6, 0), Size::new(6, 10)),
                position: Point::new(7, 20),
            },
            DrawCommand::Fill {
                area: Rectangle::new(Point::new(13, 20), Size::new(1, 10)),
            },
        ]
    );
    // without a background color the spacing strips stay untouched
    let fg_only = MultiMonoTextStyleBuilder::<u32>::new()
        .font(vec![test_font(10, 1)], MultiMonoLineHeight::Max)
        .text_color(1)
        .build();
    let (next2, cmds2) = fg_only.draw_string("ab", Point::new(0, 20), Baseline::Top);
    assert_eq!(next2, Point::new(14, 20));
    assert_eq!(cmds2.len(), 2);
    assert!(cmds2.iter().all(|c| matches!(c, DrawCommand::Glyph { .. })));
}

#[test]
fn baseline_modes_shift_the_glyph_vertically() {
    let style = MultiMonoTextStyleBuilder::<u32>::new()
        .font(vec![test_font(10, 0)], MultiMonoLineHeight::Max)
        .text_color(1)
        .build();
    let p = Point::new(0, 100);
    let pos_of = |baseline| match style.draw_string("a", p, baseline).1[0] {
        DrawCommand::Glyph { position, .. } => position,
        _ => panic!("expected a glyph step"),
    };
    assert_eq!(pos_of(Baseline::Top), Point::new(0, 100));
    assert_eq!(pos_of(Baseline::Bottom), Point::new(0, 100 - 9));
    assert_eq!(pos_of(Baseline::Middle), Point::new(0, 100 - 4));
    assert_eq!(pos_of(Baseline::Alphabetic), Point::new(0, 100 - 8));
}

#[test]
fn draw_whitespace_fills_only_with_background() {
    let style = MultiMonoTextStyleBuilder::<u32>::new()
        .font(vec![test_font(10, 0)], MultiMonoLineHeight::Max)
        .text_color(1)
        .background_color(2)
        .build();
    let (next, cmds) = style.draw_whitespace(5, Point::new(3, 50), Baseline::Top);
    assert_eq!(next, Point::new(8, 50));
    assert_eq!(
        cmds,
        vec![DrawCommand::Fill {
            area: Rectangle::new(Point::new(3, 50), Size::new(5, 10)),
        }]
    );
    // a bottom baseline lifts the pad by one line height less one
    let (_, lifted) = style.draw_whitespace(5, Point::new(3, 50), Baseline::Bottom);
    assert_eq!(
        lifted,
        vec![DrawCommand::Fill {
            area: Rectangle::new(Point::new(3, 41), Size::new(5, 10)),
        }]
    );
    let no_bg = MultiMonoTextStyleBuilder::<u32>::new()
        .font(vec![test_font(10, 0)], MultiMonoLineHeight::Max)
        .text_color(1)
        .build();
    let (next2, cmds2) = no_bg.draw_whitespace(5, Point::new(3, 50), Baseline::Top);
    assert_eq!(next2, Point::new(8, 50));
    assert!(cmds2.is_empty());
}

#[test]
fn builder_sets_and_resets_colors() {
    let style = MultiMonoTextStyleBuilder::<u32>::new()
        .font(vec![test_font(10, 0)], MultiMonoLineHeight::Max)
        .text_color(1)
        .background_color(2)
        .build();
    assert_eq!(style.text_color, Some(1));
    assert_eq!(style.background_color, Some(2));

    let cleared = MultiMonoTextStyleBuilder::from_style(&style)
        .reset_text_color()
        .reset_background_color()
        .build();
    assert_eq!(cleared.text_color, None);
    assert_eq!(cleared.background_color, None);
    assert_eq!(cleared.line_height, style.line_height);
    assert!(cleared.is_transparent());

    let mut style = style;
    style.set_text_color(None);
    style.set_background_color(Some(5));
    assert_eq!(style.text_color, None);
    assert_eq!(style.background_color, Some(5));
}

#[test]
fn empty_font_list_falls_back_to_the_sentinel() {
    let style = MultiMonoTextStyle::new(Vec::new(), MultiMonoLineHeight::Max, 1u32);
    assert_eq!(style.line_height(), 0);
    let m = style.measure_string("xy", Point::new(0, 0), Baseline::Top);
    assert_eq!(m.next_position, Point::new(0, 0));
    assert_eq!(m.bounding_box.size, Size::new(0, 0));
}

#[test]
fn two_line_layout_advances_by_one_line_height() {
    let style = MultiMonoTextStyleBuilder::<u32>::new()
        .font(vec![test_font(10, 0)], MultiMonoLineHeight::Max)
        .text_color(1)
        .build();
    let rect = Rectangle::new(Point::new(10, 20), Size::new(100, 50));
    let text = StaticText::with_style("a\nb", rect, style, Alignment::Left, Baseline::Top);
    let lines = text.lines();
    assert_eq!(lines.len(), 2);
    assert_eq!(lines[0].0, "a");
    assert_eq!(lines[1].0, "b");
    // the top baseline anchors the first line at the rectangle's top edge
    assert_eq!(lines[0].1, Point::new(10, 20));
    assert_eq!(lines[1].1, Point::new(10, 30));
}

#[test]
fn centered_line_is_anchored_at_half_the_leftover_width() {
    let style = MultiMonoTextStyleBuilder::<u32>::new()
        .font(vec![test_font(10, 0)], MultiMonoLineHeight::Max)
        .text_color(1)
        .build();
    let rect = Rectangle::new(Point::new(10, 20), Size::new(100, 50));
    let text = StaticText::with_style("ab", rect, style, Alignment::Center, Baseline::Top);
    let lines = text.lines();
    assert_eq!(lines.len(), 1);
    // the measured width of "ab" is twelve, so the anchor sits at
    // (100 - 12) / 2 = 44 pixels from the left edge
    assert_eq!(lines[0].1, Point::new(10 + 44, 20));
}

#[test]
fn right_aligned_line_ends_at_the_right_edge() {
    let style = MultiMonoTextStyleBuilder::<u32>::new()
        .font(vec![test_font(10, 0)], MultiMonoLineHeight::Max)
        .text_color(1)
        .build();
    let rect = Rectangle::new(Point::new(10, 20), Size::new(100, 50));
    let text = StaticText::with_style("ab", rect, style, Alignment::Right, Baseline::Top);
    let lines = text.lines();
    assert_eq!(lines[0].1, Point::new(10 + 100 - 12, 20));
}

#[test]
fn bottom_baseline_anchors_the_block_at_the_bottom_row() {
    let style = MultiMonoTextStyleBuilder::<u32>::new()
        .font(vec![test_font(10, 0)], MultiMonoLineHeight::Max)
        .text_color(1)
        .build();
    let rect = Rectangle::new(Point::new(0, 0), Size::new(100, 50));
    let text = StaticText::with_style("a\nb", rect, style, Alignment::Left, Baseline::Bottom);
    let lines = text.lines();
    // the last line's row is the rectangle's bottom row: 50 - 1 - 10
    assert_eq!(lines[0].1, Point::new(0, 39));
    assert_eq!(lines[1].1, Point::new(0, 49));
}

#[test]
fn trailing_carriage_return_is_stripped_per_line() {
    let style = MultiMonoTextStyleBuilder::<u32>::new()
        .font(vec![test_font(10, 0)], MultiMonoLineHeight::Max)
        .text_color(1)
        .build();
    let rect = Rectangle::new(Point::new(0, 0), Size::new(100, 50));
    let text = StaticText::with_style("ab\r\ncd", rect, style, Alignment::Left, Baseline::Top);
    let lines = text.lines();
    assert_eq!(lines.len(), 2);
    assert_eq!(lines[0].0, "ab");
    assert_eq!(lines[1].0, "cd");
}

#[test]
fn layout_pads_each_line_to_the_rectangle_width() {
    let style = MultiMonoTextStyleBuilder::<u32>::new()
        .font(vec![test_font(10, 0)], MultiMonoLineHeight::Max)
        .text_color(1)
        .background_color(2)
        .build();
    let rect = Rectangle::new(Point::new(10, 20), Size::new(100, 50));
    let text = StaticText::with_style("ab", rect, style, Alignment::Center, Baseline::Top);
    let (final_pos, cmds) = text.draw();
    // leading pad from the left edge to the anchor at x = 54
    assert_eq!(
        cmds.first(),
        Some(&DrawCommand::Fill {
            area: Rectangle::new(Point::new(10, 20), Size::new(44, 10)),
        })
    );
    // trailing pad from the cursor at x = 66 out to the right edge
    assert_eq!(
        cmds.last(),
        Some(&DrawCommand::Fill {
            area: Rectangle::new(Point::new(66, 20), Size::new(44, 10)),
        })
    );
    // two glyphs between the pads
    assert_eq!(cmds.len(), 4);
    // the cursor ends at the right edge, on the line's row
    assert_eq!(final_pos, Point::new(110, 20));
}

#[test]
fn transparent_layout_emits_nothing_but_still_advances() {
    let style = MultiMonoTextStyleBuilder::<u32>::new()
        .font(vec![test_font(10, 0)], MultiMonoLineHeight::Max)
        .build();
    let rect = Rectangle::new(Point::new(10, 20), Size::new(100, 50));
    let text = StaticText::with_style("ab", rect, style, Alignment::Center, Baseline::Top);
    let (final_pos, cmds) = text.draw();
    assert!(cmds.is_empty());
    // the cursor still ends at the right edge on the line's row
    assert_eq!(final_pos, Point::new(110, 20));
}

#[test]
fn alphabetic_whitespace_uses_the_first_font() {
    // two fonts: the pad geometry must follow the first, whatever the
    // line height resolves to
    let tall = test_font(20, 0);
    let style = MultiMonoTextStyleBuilder::<u32>::new()
        .font(vec![test_font(10, 0), tall], MultiMonoLineHeight::Max)
        .text_color(1)
        .background_color(2)
        .build();
    assert_eq!(style.line_height(), 20);
    let (_, cmds) = style.draw_whitespace(4, Point::new(0, 50), Baseline::Alphabetic);
    // offset is the first font's baseline, height its cell height
    assert_eq!(
        cmds,
        vec![DrawCommand::Fill {
            area: Rectangle::new(Point::new(0, 42), Size::new(4, 10)),
        }]
    );
}

#[test]
fn multi_font_routing_picks_the_first_claiming_font() {
    let letters = MultiMonoFont {
        image_data: vec![0u8; 120],
        image_width: 60,
        character_size: CharSize::new(6, 16),
        character_spacing: 0,
        baseline: 12,
        glyph_mapping: StrGlyphMapping::new("\0az", 0),
    };
    let digits = MultiMonoFont {
        image_data: vec![0u8; 80],
        image_width: 40,
        character_size: CharSize::new(4, 8),
        character_spacing: 0,
        baseline: 6,
        glyph_mapping: StrGlyphMapping::new("\0\u{0030}\u{0039}", 0),
    };
    let style = MultiMonoTextStyleBuilder::<u32>::new()
        .font(vec![letters, digits], MultiMonoLineHeight::Max)
        .text_color(1)
        .build();
    assert_eq!(style.line_height(), 16);
    let m = style.measure_string("a1", Point::new(0, 0), Baseline::Top);
    // one wide cell and one narrow cell
    assert_eq!(m.next_position, Point::new(10, 0));
    assert_eq!(m.bounding_box.size, Size::new(10, 16));
    let (_, cmds) = style.draw_string("a1", Point::new(0, 0), Baseline::Top);
    assert_eq!(
        cmds,
        vec![
            DrawCommand::Glyph {
                font_index: 0,
                area: Rectangle::new(Point::new(0, 0), Size::new(6, 16)),
                position: Point::new(0, 0),
            },
            DrawCommand::Glyph {
                font_index: 1,
                area: Rectangle::new(Point::new(4, 0), Size::new(4, 8)),
                position: Point::new(6, 0),
            },
        ]
    );
    // an unclaimed character falls back to the first font in the list
    let fallback = style.measure_string("!", Point::new(0, 0), Baseline::Top);
    assert_eq!(fallback.next_position, Point::new(6, 0));
}
