use lvgl_font_bridge::font_source::{
    find_numbers, first_capture, parse_capture_u32, parse_i32, parse_lvgl_font, parse_u8_list, source_chars,
    strip_c_comments, Capture, FontSection, FontSourceError, FontValue,
};
use lvgl_font_bridge::GlyphMetrics;
use regex::Regex;

fn chars(text: &str) -> Vec<char> {
    text.chars().collect()
}

fn text(chars: &[char]) -> String {
    chars.iter().collect()
}

const SAMPLE: &str = r#"/*******************************************************************************
 * Size: 16 px
 * Bpp: 1
 * Opts: --font x.ttf -r 0x31,0x48
 ******************************************************************************/

static LV_ATTRIBUTE_LARGE_CONST const uint8_t glyph_bitmap[] = {
    /* U+0031 "1" */
    0x30, 0xa0,

    /* U+0048 "H" */
    0xff, 0x81 // trailing
};

static const lv_font_fmt_txt_glyph_dsc_t glyph_dsc[] = {
    {.bitmap_index = 0, .adv_w = 0, .box_w = 0, .box_h = 0, .ofs_x = 0, .ofs_y = 0} /* id = 0 reserved */,
    {.bitmap_index = 0, .adv_w = 167, .box_w = 4, .box_h = 4, .ofs_x = 2, .ofs_y = 0},
    {.bitmap_index = 2, .adv_w = 223, .box_w = 4, .box_h = 4, .ofs_x = -1, .ofs_y = -3}
};

static const uint16_t unicode_list_0[] = {
    0x0, 0x17
};

static const lv_font_fmt_txt_cmap_t cmaps[] = {
    {
        .range_start = 49, .range_length = 24, .glyph_id_start = 1,
    }
};

lv_font_t hello = {
    .line_height = 18,
    .base_line = 3,
};
"#;

#[test]
fn strip_comments_before_parsing_bitmap_values() {
    let section = r#"
            /* U+0021 "!" */
            0xfc, 0x80,

            /* U+0072 "r" */
            0xd2, 0x49, 0x20
        "#;

    let stripped = strip_c_comments(&chars(section));
    let values = parse_u8_list(&stripped).unwrap();

    assert_eq!(values, vec![0xfc, 0x80, 0xd2, 0x49, 0x20]);
}

#[test]
fn bitmap_values_must_fit_in_u8() {
    let error = parse_u8_list(&chars("0x100")).unwrap_err();

    assert!(error.message().contains("out of range for u8"));
}

#[test]
fn parses_a_complete_font_source() {
    let font = parse_lvgl_font(SAMPLE).unwrap();

    assert_eq!(font.bitmap, vec![0x30, 0xa0, 0xff, 0x81]);
    assert_eq!(
        font.metrics,
        vec![GlyphMetrics::new(0, 167, 4, 4, 2, 0), GlyphMetrics::new(2, 223, 4, 4, -1, -3)]
    );
    assert_eq!(font.symbols, "1H");
    assert_eq!(font.native_size, 16);
    assert_eq!(font.line_height, 18);
    assert_eq!(font.baseline, 3);
}

#[test]
fn missing_sections_and_values_are_reported_in_order() {
    assert_eq!(
        parse_lvgl_font("nothing here").err(),
        Some(FontSourceError::SectionNotFound(FontSection::GlyphBitmap))
    );
    let without_dsc = SAMPLE.replace("glyph_dsc[]", "glyph_table[]");
    assert_eq!(
        parse_lvgl_font(&without_dsc).err(),
        Some(FontSourceError::SectionNotFound(FontSection::GlyphDescriptions))
    );
    let without_size = SAMPLE.replace("Size: 16 px", "Size: 16");
    assert_eq!(
        parse_lvgl_font(&without_size).err(),
        Some(FontSourceError::ValueNotFound(FontValue::NativeSize))
    );
    let without_base = SAMPLE.replace(".base_line = 3", ".base_line = x");
    assert_eq!(
        parse_lvgl_font(&without_base).err(),
        Some(FontSourceError::ValueNotFound(FontValue::Baseline))
    );
}

#[test]
fn glyph_errors_are_reported() {
    let mismatch = SAMPLE.replace("0x0, 0x17", "0x0");
    assert_eq!(
        parse_lvgl_font(&mismatch).err(),
        Some(FontSourceError::LengthMismatch { unicode_list: 1, metrics: 2 })
    );
    let bad_offset = SAMPLE.replace(".ofs_x = -1", ".ofs_x = -2147483649");
    assert_eq!(parse_lvgl_font(&bad_offset).err(), Some(FontSourceError::InvalidOfsX));
    let no_glyphs = SAMPLE
        .replace("{.bitmap_index = 0, .adv_w = 167", "{.index = 0, .adv_w = 167")
        .replace("{.bitmap_index = 2", "{.index = 2");
    assert_eq!(parse_lvgl_font(&no_glyphs).err(), Some(FontSourceError::NoGlyphMetrics));
    let surrogate = SAMPLE.replace(".range_start = 49", ".range_start = 55296");
    assert_eq!(parse_lvgl_font(&surrogate).err(), Some(FontSourceError::InvalidCodepoint(55296)));
    let overflow = SAMPLE
        .replace(".range_start = 49", ".range_start = 4294967290")
        .replace("0x0, 0x17", "0x17, 0x0");
    assert_eq!(parse_lvgl_font(&overflow).err(), Some(FontSourceError::CodepointOverflow));
    let empty_bitmap = SAMPLE.replace("0x30, 0xa0,", "").replace("0xff, 0x81", "");
    assert_eq!(parse_lvgl_font(&empty_bitmap).err(), Some(FontSourceError::NoNumericValue));
}

#[test]
fn integer_values_follow_the_standard_readers() {
    let values = chars("42 0x2A 0X2a +7 -7 4294967296 0xFFFFFFFF 0x100000000 ٣ 12a");
    let read = |a: usize, b: usize| parse_capture_u32(&values, a, b);
    assert_eq!(read(0, 2), Ok(42));
    assert_eq!(read(3, 7), Ok(42));
    assert_eq!(read(8, 12), Ok(42));
    assert_eq!(read(13, 15), Ok(7));
    assert_eq!(read(16, 18), Err(FontSourceError::InvalidIntegerValue("-7".to_string())));
    assert_eq!(read(19, 29), Err(FontSourceError::InvalidIntegerValue("4294967296".to_string())));
    assert_eq!(read(30, 40), Ok(u32::MAX));
    assert_eq!(read(41, 52), Err(FontSourceError::InvalidHexValue("0x100000000".to_string())));
    assert_eq!(read(53, 54), Err(FontSourceError::InvalidIntegerValue("٣".to_string())));
    assert_eq!(read(55, 58), Err(FontSourceError::InvalidIntegerValue("12a".to_string())));

    let signed = chars("-2147483648 2147483648 +5 - ");
    assert_eq!(parse_i32(&signed, 0, 11), Some(i32::MIN));
    assert_eq!(parse_i32(&signed, 12, 22), None);
    assert_eq!(parse_i32(&signed, 23, 25), Some(5));
    assert_eq!(parse_i32(&signed, 26, 27), None);
    for (a, b) in [(0, 11), (12, 22), (23, 25), (26, 27)] {
        let s: String = signed[a..b].iter().collect();
        assert_eq!(parse_i32(&signed, a, b), s.parse::<i32>().ok());
    }
}

#[test]
fn comment_stripping_agrees_with_the_c_comment_patterns() {
    let inputs = [
        "a /* b */ c // d\ne",
        "/* open /* nested */ */ x",
        "/*/ not closed here */ y // z\r\nw",
        "/* unterminated 0x1 // line",
        "//only\n//two\n",
        "x */ y /*",
    ];
    let block = Regex::new(r"(?s)/\*.*?\*/").unwrap();
    let line = Regex::new(r"//[^\n\r]*").unwrap();
    for input in inputs {
        let expected = line.replace_all(&block.replace_all(input, ""), "").into_owned();
        assert_eq!(text(&strip_c_comments(&chars(input))), expected, "input {input:?}");
    }
}

#[test]
fn number_tokens_agree_with_the_number_pattern() {
    let inputs = ["0x1F, 0X2, 0xg1, 10x5, ٣٤ 7", "0x", "abc 0x0 00x1 12_3", "\u{ff11}\u{ff12},0xaB"];
    let number = Regex::new(r"0x[0-9A-Fa-f]+|\d+").unwrap();
    for input in inputs {
        let cs = chars(input);
        let found: Vec<String> = find_numbers(&cs).iter().map(|&(a, b)| text(&cs[a..b])).collect();
        let expected: Vec<String> = number.find_iter(input).map(|m| m.as_str().to_string()).collect();
        assert_eq!(found, expected, "input {input:?}");
    }
}

#[test]
fn captures_agree_with_the_section_and_value_patterns() {
    let inputs = [
        SAMPLE.to_string(),
        "glyph_bitmap[]={1}; glyph_bitmap[] = {2};".to_string(),
        "glyph_bitmap[] = {1} glyph_bitmap[]\u{a0}=\u{3000}{2};".to_string(),
        "glyph_bitmap[] = { no end".to_string(),
        "Size: 12px Size:  ١٢ \t px .range_start=\u{2003}7 .line_height = ".to_string(),
    ];
    let patterns = [
        (Capture::Section(FontSection::GlyphBitmap), r"glyph_bitmap\[\]\s*=\s*\{(?s)(.*?)\};"),
        (Capture::Section(FontSection::GlyphDescriptions), r"glyph_dsc\[\]\s*=\s*\{(?s)(.*?)\};"),
        (Capture::Section(FontSection::UnicodeList), r"unicode_list_0\[\]\s*=\s*\{(?s)(.*?)\};"),
        (Capture::Value(FontValue::RangeStart), r"\.range_start\s*=\s*(\d+)"),
        (Capture::Value(FontValue::NativeSize), r"Size:\s*(\d+)\s*px"),
        (Capture::Value(FontValue::LineHeight), r"\.line_height\s*=\s*(\d+)"),
        (Capture::Value(FontValue::Baseline), r"\.base_line\s*=\s*(\d+)"),
    ];
    for input in &inputs {
        let cs = source_chars(input);
        for (capture, pattern) in patterns {
            let expected = Regex::new(pattern)
                .unwrap()
                .captures(input)
                .map(|c| c.get(1).unwrap().as_str().to_string());
            let found = first_capture(&cs, capture).map(|(a, b)| text(&cs[a..b]));
            assert_eq!(found, expected, "pattern {pattern} on {input:?}");
        }
    }
}

#[test]
fn error_messages_name_the_problem() {
    assert_eq!(
        FontSourceError::SectionNotFound(FontSection::UnicodeList).message(),
        r"section not found: unicode_list_0\[\]\s*=\s*\{(?s)(.*?)\};"
    );
    assert_eq!(
        FontSourceError::ValueNotFound(FontValue::NativeSize).message(),
        r"value not found: Size:\s*(\d+)\s*px"
    );
    assert_eq!(
        FontSourceError::BitmapValueOutOfRange("0x100".to_string()).message(),
        "bitmap value `0x100` is out of range for u8"
    );
    assert_eq!(
        FontSourceError::InvalidHexValue("0xfffffffff".to_string()).message(),
        "invalid hex value `0xfffffffff`"
    );
    assert_eq!(
        FontSourceError::<String>::LengthMismatch { unicode_list: 120, metrics: 7 }.message(),
        "unicode_list length (120) does not match glyph metrics length (7)"
    );
    assert_eq!(
        FontSourceError::<String>::LengthMismatch { unicode_list: 0, metrics: 10 }.message(),
        format!("unicode_list length ({}) does not match glyph metrics length ({})", 0, 10)
    );
    assert_eq!(
        FontSourceError::<String>::InvalidCodepoint(0xd800).message(),
        format!("invalid Unicode codepoint U+{:04X}", 0xd800)
    );
    assert_eq!(
        FontSourceError::<String>::InvalidCodepoint(0x1f).message(),
        "invalid Unicode codepoint U+001F"
    );
    assert_eq!(
        FontSourceError::<String>::InvalidCodepoint(0x12fffff).message(),
        "invalid Unicode codepoint U+12FFFFF"
    );
    assert_eq!(FontSourceError::<String>::NoGlyphMetrics.message(), "no glyph metrics found in glyph_dsc[]");
}
