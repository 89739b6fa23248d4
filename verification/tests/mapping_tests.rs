use multi_mono_font::mapping::StrGlyphMapping;
use multi_mono_font::{CharSize, MultiMonoFontDrawTarget, Point, Rectangle, Size, SubImage};

#[test]
fn direct_mapping_indexes_by_position() {
    let mapping = StrGlyphMapping::new("abcdef1234", 0);
    assert_eq!(mapping.index('a'), 0);
    assert_eq!(mapping.index('b'), 1);
    assert_eq!(mapping.index('1'), 6);
    assert_eq!(mapping.index('2'), 7);
}

#[test]
fn range_mapping_matches_direct_mapping() {
    let direct = StrGlyphMapping::new("abcdef1234", 7);
    let packed = StrGlyphMapping::new("\0af\014", 7);
    for c in ('\0'..='\u{2ff}').chain("abcdefghij01234567".chars()) {
        assert_eq!(direct.index(c), packed.index(c), "index differs at {c:?}");
        assert_eq!(direct.contains(c), packed.contains(c), "contains differs at {c:?}");
    }
    assert_eq!(direct.chars(), packed.chars());
}

#[test]
fn two_ranges_assign_contiguous_blocks() {
    let mapping = StrGlyphMapping::new("\0af\0\u{0031}\u{0034}", 42);
    assert_eq!(mapping.index('a'), 0);
    assert_eq!(mapping.index('f'), 5);
    assert_eq!(mapping.index('1'), 6);
    assert_eq!(mapping.index('4'), 9);
    assert_eq!(mapping.index('z'), 42);
    assert!(!mapping.contains('z'));
}

#[test]
fn chars_enumeration_order_gives_index() {
    let mapping = StrGlyphMapping::new("\0az\0\u{0030}\u{0039}", 0);
    let all = mapping.chars();
    for (n, c) in all.iter().enumerate() {
        assert!(mapping.contains(*c));
        assert_eq!(mapping.index(*c), n);
    }
}

#[test]
fn ascii_mapping_replaces_unmapped_with_question_mark() {
    let mapping = multi_mono_font::mapping::ascii();
    assert_eq!(mapping.index('A'), 'A' as usize - ' ' as usize);
    assert_eq!(mapping.index('\u{FFFD}'), '?' as usize - ' ' as usize);
    assert_eq!(mapping.chars().len(), 0x80 - 0x20);
}

#[test]
fn unmapped_chars_take_replacement_index() {
    let mapping = StrGlyphMapping::new("\0\u{20}\u{7f}", '?' as usize - ' ' as usize);
    assert!(!mapping.contains('\u{80}'));
    assert_eq!(mapping.index('\u{80}'), 31);
    assert!(mapping.contains(' '));
    assert_eq!(mapping.index(' '), 0);
}

#[test]
fn range_crossing_surrogates_skips_the_gap() {
    let mapping = StrGlyphMapping::new("\0\u{D7FE}\u{E001}", 0);
    let all = mapping.chars();
    assert_eq!(all, vec!['\u{D7FE}', '\u{D7FF}', '\u{E000}', '\u{E001}']);
    assert_eq!(mapping.index('\u{D7FF}'), 1);
    assert_eq!(mapping.index('\u{E000}'), 2);
}

#[test]
fn truncated_range_marker_ends_the_mapping() {
    let mapping = StrGlyphMapping::new("ab\0c", 9);
    assert_eq!(mapping.index('a'), 0);
    assert_eq!(mapping.index('b'), 1);
    assert_eq!(mapping.index('c'), 9);
    assert_eq!(mapping.chars(), vec!['a', 'b']);
}

#[test]
fn ranges_reports_blocks_with_raw_offsets() {
    let mapping = StrGlyphMapping::new("\0af\014x", 0);
    let ranges = mapping.ranges();
    assert_eq!(ranges, vec![(0, 'a', 'f'), (6, '1', '4'), (10, 'x', 'x')]);
}

#[test]
fn multibyte_chars_count_as_single_segments() {
    let mapping = StrGlyphMapping::new("\u{00e9}\u{20ac}", 0);
    assert_eq!(mapping.index('\u{00e9}'), 0);
    assert_eq!(mapping.index('\u{20ac}'), 1);
    assert_eq!(mapping.chars(), vec!['\u{00e9}', '\u{20ac}']);
}

#[test]
fn char_size_constructors() {
    assert_eq!(CharSize::new(6, 10), CharSize { width: 6, height: 10 });
    assert_eq!(CharSize::new_equal(11), CharSize { width: 11, height: 11 });
    assert_eq!(CharSize::zero(), CharSize { width: 0, height: 0 });
    assert_eq!(CharSize::new(6, 10).size(), Size { width: 6, height: 10 });
}

#[test]
fn sub_image_translates_into_parent_coordinates() {
    let area = Rectangle::new(Point::new(12, 30), Size::new(6, 10));
    let sub = SubImage::new_unchecked(area);
    assert_eq!(sub.size(), Size::new(6, 10));
    assert_eq!(sub.parent_area(), area);
    let inner = Rectangle::new(Point::new(2, 3), Size::new(1, 1));
    let translated = sub.translate_to_parent(&inner);
    assert_eq!(translated, Rectangle::new(Point::new(14, 33), Size::new(1, 1)));
}

#[test]
fn adapter_forwards_text_and_background_colors() {
    let both = MultiMonoFontDrawTarget::new(Some(7u32), Some(9u32));
    assert_eq!(both.solid_fill_color(true), Some(7));
    assert_eq!(both.solid_fill_color(false), Some(9));
    assert_eq!(both.pixel_color(true), Some(7));
    assert_eq!(both.pixel_color(false), Some(9));

    let fg_only = MultiMonoFontDrawTarget::new(Some(7u32), None);
    assert_eq!(fg_only.solid_fill_color(true), Some(7));
    assert_eq!(fg_only.solid_fill_color(false), None);
    assert_eq!(fg_only.pixel_color(false), None);

    let bg_only = MultiMonoFontDrawTarget::new(None, Some(9u32));
    assert_eq!(bg_only.solid_fill_color(true), None);
    assert_eq!(bg_only.solid_fill_color(false), Some(9));
}
