use lvgl_font_bridge::bitmap::{glyph_bitmap_bit, interpolated_glyph_bit_for_ratio, scaled_source_coordinate};
use lvgl_font_bridge::font::utf8_char_count;
use lvgl_font_bridge::geometry::{Baseline, DrawOp, Point};
use lvgl_font_bridge::macro_input::{classify_macro_key, first_missing_argument, MacroArgument};
use lvgl_font_bridge::scale::{non_zero_or_one, scale_i32_ratio, scale_ratio_nonzero, scale_u32, u32_to_i32_sat};
use lvgl_font_bridge::{EgTextStyle, FontData, FontLayout, FontPreset, FontVerticalMetrics, GlyphMetrics};

#[test]
fn utf8_char_count_counts_scalar_values() {
    assert_eq!(utf8_char_count(""), 0);
    assert_eq!(utf8_char_count("1H哈"), 3);
    assert_eq!(utf8_char_count("é😀a"), 3);
    assert_eq!("é😀a".len(), 7);
}

#[test]
fn scale_u32_rounds_half_up() {
    assert_eq!(scale_u32(18, 16, 20), 14);
    assert_eq!(scale_u32(1, 1, 2), 1);
    assert_eq!(scale_u32(1, 1, 3), 0);
    assert_eq!(scale_u32(5, 3, 2), 8);
    assert_eq!(scale_u32(u32::MAX, 2, 1), u32::MAX - 1);
}

#[test]
fn scale_ratio_nonzero_keeps_nonzero_sizes() {
    assert_eq!(scale_ratio_nonzero(0, 5, 1), 0);
    assert_eq!(scale_ratio_nonzero(1, 1, 3), 1);
    assert_eq!(scale_ratio_nonzero(16, 3, 2), 24);
    assert_eq!(scale_ratio_nonzero(17, 9, 9), 17);
    assert_eq!(non_zero_or_one(0), 1);
    assert_eq!(non_zero_or_one(7), 7);
}

#[test]
fn scale_i32_ratio_keeps_sign_and_saturates() {
    assert_eq!(scale_i32_ratio(0, 3, 2), 0);
    assert_eq!(scale_i32_ratio(-1, 3, 2), -2);
    assert_eq!(scale_i32_ratio(1, 3, 2), 2);
    assert_eq!(scale_i32_ratio(-3, 1, 2), -2);
    assert_eq!(scale_i32_ratio(i32::MAX, 2, 1), i32::MAX);
    assert_eq!(scale_i32_ratio(-i32::MAX, 2, 1), i32::MIN);
    assert_eq!(scale_i32_ratio(-12345, 7, 7), -12345);
    assert_eq!(u32_to_i32_sat(u32::MAX), i32::MAX);
    assert_eq!(u32_to_i32_sat(5), 5);
}

fn font_with<'a>(bitmap: &'a [u8], metrics: &'a [GlyphMetrics]) -> FontData<'a> {
    FontData::new(bitmap, "A", metrics, FontLayout::new(4, 8), FontVerticalMetrics::new(8, 8, 1))
}

#[test]
fn bitmap_bits_are_read_most_significant_first_without_row_padding() {
    let metrics = [GlyphMetrics::new(1, 0, 3, 3, 0, 0)];
    let font = font_with(&[0xff, 0b1010_0110, 0b1000_0000], &metrics);
    let glyph = &metrics[0];
    let bits: Vec<bool> = (0..3)
        .flat_map(|y| (0..3).map(move |x| (x, y)))
        .map(|(x, y)| glyph_bitmap_bit(&font, glyph, x, y))
        .collect();
    assert_eq!(bits, vec![true, false, true, false, false, true, true, false, true]);
    assert!(!glyph_bitmap_bit(&font, glyph, 3, 0));
    assert!(!glyph_bitmap_bit(&font, glyph, 0, 3));
    let short = [GlyphMetrics::new(2, 0, 8, 2, 0, 0)];
    let font = font_with(&[0, 0, 0xff], &short);
    assert!(glyph_bitmap_bit(&font, &short[0], 7, 0));
    assert!(!glyph_bitmap_bit(&font, &short[0], 0, 1));
}

#[test]
fn source_coordinates_map_pixel_centres() {
    assert_eq!(scaled_source_coordinate(0, 1, 4), (0, 0));
    assert_eq!(scaled_source_coordinate(3, 4, 0), (0, 0));
    assert_eq!(scaled_source_coordinate(2, 4, 4), (2, 0));
    assert_eq!(scaled_source_coordinate(0, 2, 4), (0, 0));
    assert_eq!(scaled_source_coordinate(1, 2, 4), (0, 64));
    assert_eq!(scaled_source_coordinate(3, 2, 4), (1, 0));
    assert_eq!(scaled_source_coordinate(1, 3, 2), (1, 192));
}

#[test]
fn interpolation_at_unit_ratio_reproduces_the_bitmap() {
    let metrics = [GlyphMetrics::new(0, 0, 3, 3, 0, 0)];
    let font = font_with(&[0b1010_0110, 0b1000_0000], &metrics);
    for y in 0..4 {
        for x in 0..4 {
            assert_eq!(
                interpolated_glyph_bit_for_ratio(&font, &metrics[0], 5, 5, x, y),
                glyph_bitmap_bit(&font, &metrics[0], x, y)
            );
        }
    }
}

#[test]
fn style_without_background_draws_only_pixels() {
    let metrics = [GlyphMetrics::new(0, 0, 2, 1, 0, 0)];
    let font = font_with(&[0b1100_0000], &metrics);
    let preset = FontPreset::new(&font);
    let style = EgTextStyle::new(&preset, 1u8);
    let drawing = style.draw_string("AxA", Point::new(0, 0), Baseline::Top).unwrap();
    assert_eq!(drawing.ops.len(), 4);
    assert!(drawing.ops.iter().all(|op| matches!(op, DrawOp::Pixel { color: 1, .. })));
    assert_eq!(drawing.next_position, Point::new(12, 0));
}

#[test]
fn glyphs_are_centred_and_sit_on_the_baseline() {
    let metrics = [GlyphMetrics::new(0, 0, 2, 1, 0, 2)];
    let font = FontData::new(&[0b1000_0000], "A", &metrics, FontLayout::new(6, 8), FontVerticalMetrics::new(8, 8, 2));
    let preset = FontPreset::new(&font);
    let style = EgTextStyle::new(&preset, 1u8);
    // cell 6 wide, glyph 2 wide: offset 2; line 8, baseline 2 up: alphabetic 6,
    // glyph 1 high sits at 5, raised by its offset 2 to 3
    assert_eq!(style.glyph_origin('A', Point::new(10, 20), &metrics[0]), Some(Point::new(12, 23)));
    let drawing = style.draw_string("A", Point::new(10, 20), Baseline::Top).unwrap();
    assert_eq!(drawing.ops, vec![DrawOp::Pixel { point: Point::new(12, 23), color: 1 }]);
}

#[test]
fn macro_keys_and_missing_arguments() {
    assert_eq!(classify_macro_key("path"), Some(MacroArgument::Path));
    assert_eq!(classify_macro_key("half_width"), Some(MacroArgument::HalfWidth));
    assert_eq!(classify_macro_key("full_width"), Some(MacroArgument::FullWidth));
    assert_eq!(classify_macro_key("height"), Some(MacroArgument::Height));
    assert_eq!(classify_macro_key("heights"), None);
    assert_eq!(classify_macro_key("pat"), None);
    assert_eq!(first_missing_argument(true, false, false), Some(MacroArgument::HalfWidth));
    assert_eq!(first_missing_argument(false, true, true), Some(MacroArgument::Path));
    assert_eq!(first_missing_argument(true, true, false), Some(MacroArgument::FullWidth));
    // `path`, `half_width` and `full_width` are all the macro needs
    assert_eq!(first_missing_argument(true, true, true), None);
}

#[test]
fn glyph_lookup_takes_the_first_occurrence() {
    let metrics = [GlyphMetrics::new(1, 0, 1, 1, 0, 0), GlyphMetrics::new(2, 0, 1, 1, 0, 0)];
    let font = FontData::new(&[], "AA", &metrics, FontLayout::new(4, 8), FontVerticalMetrics::new(8, 8, 1));
    assert_eq!(font.glyph_for_char('A').map(|g| g.bitmap_index), Some(1));

    let short = FontData { symbols: "xyA", ..font };
    assert_eq!(short.glyph_for_char('y').map(|g| g.bitmap_index), Some(2));
    assert_eq!(short.glyph_for_char('A'), None);
}
