use embedded_graphics::draw_target::DrawTarget;
use embedded_graphics::geometry::{OriginDimensions, Point as EgPoint, Size as EgSize};
use embedded_graphics::mock_display::MockDisplay;
use embedded_graphics::pixelcolor::BinaryColor;
use embedded_graphics::primitives::Rectangle as EgRectangle;
use embedded_graphics::text::renderer::{TextMetrics as EgTextMetrics, TextRenderer};
use embedded_graphics::text::{Baseline as EgBaseline, Text};
use embedded_graphics::{Drawable, Pixel};

use lvgl_font_bridge::geometry::{Baseline, DrawOp, DrawStep, Drawing, Point, Rectangle, Size};
use lvgl_font_bridge::{EgTextStyle, FontData, FontLayout, FontPreset, FontVerticalMetrics, GlyphMetrics};

const HELLO_BITMAP: &[u8] = &[
    0x30, 0xa0, 0x40, 0x81, 0x02, 0x04, 0x08, 0x10, 0x20, 0x40, 0x81, 0x02, 0x3f, 0x80, 0x80,
    0x60, 0x18, 0x06, 0x01, 0x80, 0x60, 0x18, 0x07, 0xff, 0x80, 0x60, 0x18, 0x06, 0x01, 0x80,
    0x60, 0x18, 0x04, 0x00, 0x20, 0x00, 0x18, 0x3e, 0x0a, 0x11, 0x09, 0x08, 0x88, 0x44, 0x44,
    0x12, 0x24, 0x05, 0x15, 0xf9, 0x88, 0x00, 0x44, 0x00, 0x22, 0x7f, 0x91, 0x20, 0x4f, 0x90,
    0x24, 0x08, 0x12, 0x04, 0x08, 0x02, 0x04, 0x01, 0xfe, 0x00, 0x81, 0x00,
];

const HELLO_SYMBOLS: &str = "1H哈";

fn hello_metrics() -> Vec<GlyphMetrics> {
    vec![
        GlyphMetrics::new(0, 167, 7, 15, 2, 0),
        GlyphMetrics::new(14, 223, 10, 15, 2, 0),
        GlyphMetrics::new(33, 320, 17, 18, 2, -1),
    ]
}

fn hello_font(metrics: &[GlyphMetrics]) -> FontData<'_> {
    FontData::new(
        HELLO_BITMAP,
        HELLO_SYMBOLS,
        metrics,
        FontLayout::new(8, 16),
        FontVerticalMetrics::new(20, 18, 1),
    )
}

const SIMPLE_BITMAP: &[u8] = &[0b1100_0000];

fn simple_metrics() -> Vec<GlyphMetrics> {
    vec![GlyphMetrics::new(0, 3, 1, 1, 0, 0), GlyphMetrics::new(0, 5, 1, 1, 1, 0)]
}

fn simple_font(metrics: &[GlyphMetrics]) -> FontData<'_> {
    FontData::new(
        SIMPLE_BITMAP,
        "A哈",
        metrics,
        FontLayout::new(3, 5),
        FontVerticalMetrics::new(10, 10, 2),
    )
}

const UNIT_BITMAP: &[u8] = &[0b1000_0000];

fn unit_metrics() -> Vec<GlyphMetrics> {
    vec![GlyphMetrics::new(0, 1, 1, 1, 0, 0)]
}

fn unit_font(metrics: &[GlyphMetrics]) -> FontData<'_> {
    FontData::new(
        UNIT_BITMAP,
        "A",
        metrics,
        FontLayout::new(1, 1),
        FontVerticalMetrics::new(1, 1, 0),
    )
}

fn baseline_font() -> FontData<'static> {
    FontData::new(&[], "", &[], FontLayout::new(4, 20), FontVerticalMetrics::new(10, 10, 3))
}

fn eg_point(p: Point) -> EgPoint {
    EgPoint::new(p.x, p.y)
}

fn eg_rectangle(area: Rectangle) -> EgRectangle {
    EgRectangle::new(eg_point(area.top_left), EgSize::new(area.size.width, area.size.height))
}

fn perform<D: DrawTarget<Color = BinaryColor>>(
    drawing: &Drawing<BinaryColor>,
    target: &mut D,
) -> Result<EgPoint, D::Error> {
    let mut step = drawing.first_step();
    loop {
        match step {
            DrawStep::Perform(index) => {
                let outcome = match drawing.ops[index] {
                    DrawOp::Fill { area, color } => target.fill_solid(&eg_rectangle(area), color),
                    DrawOp::Pixel { point, color } => {
                        target.draw_iter(core::iter::once(Pixel(eg_point(point), color)))
                    }
                };
                step = drawing.next_step(index, outcome);
            }
            DrawStep::Done(next_position) => return Ok(eg_point(next_position)),
            DrawStep::Failed(error) => return Err(error),
        }
    }
}

fn render(drawing: &Drawing<BinaryColor>, display: &mut MockDisplay<BinaryColor>) {
    perform(drawing, display).unwrap();
}

/// A display whose display calls succeed until the one numbered `fail_at`
/// (counting from zero), which fails; it counts the calls made.
struct FailingDisplay {
    calls: usize,
    fail_at: usize,
}

impl OriginDimensions for FailingDisplay {
    fn size(&self) -> EgSize {
        EgSize::new(64, 64)
    }
}

impl DrawTarget for FailingDisplay {
    type Color = BinaryColor;
    type Error = usize;

    fn draw_iter<I: IntoIterator<Item = Pixel<BinaryColor>>>(&mut self, _pixels: I) -> Result<(), usize> {
        let call = self.calls;
        self.calls += 1;
        if call == self.fail_at {
            Err(call)
        } else {
            Ok(())
        }
    }

    fn fill_solid(&mut self, _area: &EgRectangle, _color: BinaryColor) -> Result<(), usize> {
        self.draw_iter(core::iter::empty())
    }
}

fn baseline_of(baseline: EgBaseline) -> Baseline {
    match baseline {
        EgBaseline::Top => Baseline::Top,
        EgBaseline::Bottom => Baseline::Bottom,
        EgBaseline::Middle => Baseline::Middle,
        EgBaseline::Alphabetic => Baseline::Alphabetic,
    }
}

/// Drives the library's drawing operations through `embedded-graphics`'
/// `TextRenderer`, so that `Text` objects can use a style.
#[derive(Clone)]
struct Renderer<'a>(EgTextStyle<'a, BinaryColor>);

impl TextRenderer for Renderer<'_> {
    type Color = BinaryColor;

    fn draw_string<D: DrawTarget<Color = BinaryColor>>(
        &self,
        text: &str,
        position: EgPoint,
        baseline: EgBaseline,
        target: &mut D,
    ) -> Result<EgPoint, D::Error> {
        let drawing = self.0.draw_string(text, Point::new(position.x, position.y), baseline_of(baseline)).unwrap();
        perform(&drawing, target)
    }

    fn draw_whitespace<D: DrawTarget<Color = BinaryColor>>(
        &self,
        width: u32,
        position: EgPoint,
        baseline: EgBaseline,
        target: &mut D,
    ) -> Result<EgPoint, D::Error> {
        let drawing = self.0.draw_whitespace(width, Point::new(position.x, position.y), baseline_of(baseline)).unwrap();
        perform(&drawing, target)
    }

    fn measure_string(&self, text: &str, position: EgPoint, baseline: EgBaseline) -> EgTextMetrics {
        let metrics = self.0.measure_string(text, Point::new(position.x, position.y), baseline_of(baseline)).unwrap();
        EgTextMetrics {
            bounding_box: eg_rectangle(metrics.bounding_box),
            next_position: eg_point(metrics.next_position),
        }
    }

    fn line_height(&self) -> u32 {
        self.0.line_height()
    }
}

const HELLO_METRICS: &[GlyphMetrics] = &[
    GlyphMetrics { bitmap_index: 0, adv_w: 167, box_w: 7, box_h: 15, ofs_x: 2, ofs_y: 0 },
    GlyphMetrics { bitmap_index: 14, adv_w: 223, box_w: 10, box_h: 15, ofs_x: 2, ofs_y: 0 },
    GlyphMetrics { bitmap_index: 33, adv_w: 320, box_w: 17, box_h: 18, ofs_x: 2, ofs_y: -1 },
];

const HELLO_FONT: FontData<'static> = FontData {
    bitmap: HELLO_BITMAP,
    symbols: HELLO_SYMBOLS,
    metrics: HELLO_METRICS,
    layout: FontLayout { half_width: 8, full_width: 16 },
    vertical_metrics: FontVerticalMetrics { native_size: 20, line_height: 18, baseline: 1 },
};

const HELLO_PRESET: FontPreset<'static> = FontPreset { font: &HELLO_FONT };

#[test]
fn const_construction_works() {
    let style = EgTextStyle::new(&HELLO_PRESET, BinaryColor::On);

    assert_eq!(style.preset.font.vertical_metrics.native_size, 20);
    assert_eq!(style.preset.ascii_width(), 8);
    assert_eq!(style.preset.non_ascii_width(), 16);
    assert_eq!(style.preset.height(), 16);
}

#[test]
fn font_preset_uses_default_dimensions() {
    let metrics = hello_metrics();
    let font = hello_font(&metrics);
    let preset = FontPreset::new(&font);
    let style = preset.default_text_style(BinaryColor::On);

    assert_eq!(style.preset.ascii_width(), 8);
    assert_eq!(style.preset.non_ascii_width(), 16);
    assert_eq!(style.preset.height(), 16);
    assert_eq!(style.preset.font.symbols, font.symbols);
}

#[test]
fn glyph_lookup_supports_utf8() {
    let metrics = hello_metrics();
    let font = hello_font(&metrics);

    assert_eq!(font.glyph_for_char('1').map(|g| g.bitmap_index), Some(0));
    assert_eq!(font.glyph_for_char('H').map(|g| g.bitmap_index), Some(14));
    assert_eq!(font.glyph_for_char('哈').map(|g| g.bitmap_index), Some(33));
    assert_eq!(font.glyph_for_char('Z'), None);
}

#[test]
fn measure_string_uses_ascii_and_non_ascii_widths() {
    let metrics = hello_metrics();
    let font = hello_font(&metrics);
    let preset = FontPreset::new(&font);
    let style = EgTextStyle::new(&preset, BinaryColor::On);
    let metrics = style.measure_string("1哈字", Point::new(4, 5), Baseline::Top).unwrap();

    assert_eq!(metrics.bounding_box.top_left, Point::new(4, 5));
    assert_eq!(metrics.bounding_box.size, Size::new(40, 14));
    assert_eq!(metrics.next_position, Point::new(44, 5));
}

#[test]
fn missing_glyphs_still_advance_by_category_width() {
    let metrics = hello_metrics();
    let font = hello_font(&metrics);
    let preset = FontPreset::new(&font);
    let style = EgTextStyle::new(&preset, BinaryColor::On);
    let metrics = style.measure_string("Z字", Point::zero(), Baseline::Top).unwrap();

    assert_eq!(metrics.bounding_box.size.width, 24);
    assert_eq!(metrics.next_position, Point::new(24, 0));
}

#[test]
fn preset_default_height_comes_from_full_width() {
    let wide_font = FontData::new(&[], "", &[], FontLayout::new(6, 12), FontVerticalMetrics::new(10, 10, 3));
    let wide_preset = FontPreset::new(&wide_font);
    let style = EgTextStyle::new(&wide_preset, BinaryColor::On);
    let metrics = style.measure_string("A哈", Point::new(3, 20), Baseline::Alphabetic).unwrap();

    assert_eq!(style.preset.height(), 12);
    assert_eq!(metrics.bounding_box.top_left, Point::new(3, 12));
    assert_eq!(metrics.bounding_box.size, Size::new(18, 12));
    assert_eq!(metrics.next_position, Point::new(21, 20));
}

#[test]
fn baseline_offsets_are_respected() {
    let font = baseline_font();
    let preset = FontPreset::new(&font);
    let style = EgTextStyle::new(&preset, BinaryColor::On);
    let top = style.measure_string("A", Point::new(10, 30), Baseline::Top).unwrap();
    let bottom = style.measure_string("A", Point::new(10, 30), Baseline::Bottom).unwrap();
    let middle = style.measure_string("A", Point::new(10, 30), Baseline::Middle).unwrap();
    let alphabetic = style.measure_string("A", Point::new(10, 30), Baseline::Alphabetic).unwrap();

    assert_eq!(top.bounding_box.top_left, Point::new(10, 30));
    assert_eq!(bottom.bounding_box.top_left, Point::new(10, 11));
    assert_eq!(middle.bounding_box.top_left, Point::new(10, 21));
    assert_eq!(alphabetic.bounding_box.top_left, Point::new(10, 16));
}

#[test]
fn draw_string_renders_ascii_and_non_ascii_glyphs() {
    let metrics = simple_metrics();
    let font = simple_font(&metrics);
    let preset = FontPreset::new(&font);
    let style = EgTextStyle::new(&preset, BinaryColor::On);
    let mut display = MockDisplay::new();
    display.set_allow_out_of_bounds_drawing(true);

    let drawing = style.draw_string("A哈", Point::zero(), Baseline::Top).unwrap();
    render(&drawing, &mut display);

    assert_eq!(drawing.next_position, Point::new(8, 0));
    assert_eq!(display.get_pixel(EgPoint::new(1, 3)), Some(BinaryColor::On));
    assert_eq!(display.get_pixel(EgPoint::new(5, 3)), Some(BinaryColor::On));
}

#[test]
fn draw_string_with_text_object_uses_renderer() {
    let metrics = simple_metrics();
    let font = simple_font(&metrics);
    let preset = FontPreset::new(&font);
    let style = EgTextStyle::new(&preset, BinaryColor::On);
    let mut display = MockDisplay::new();
    display.set_allow_out_of_bounds_drawing(true);

    Text::with_baseline("A哈", EgPoint::new(1, 2), Renderer(style), EgBaseline::Top)
        .draw(&mut display)
        .unwrap();

    assert_eq!(display.get_pixel(EgPoint::new(2, 5)), Some(BinaryColor::On));
    assert_eq!(display.get_pixel(EgPoint::new(6, 5)), Some(BinaryColor::On));
}

#[test]
fn draw_whitespace_fills_background() {
    let metrics = simple_metrics();
    let font = simple_font(&metrics);
    let preset = FontPreset::new(&font);
    let style = EgTextStyle::with_background(&preset, BinaryColor::On, BinaryColor::Off);
    let mut display = MockDisplay::new();
    display.set_allow_out_of_bounds_drawing(true);

    let drawing = style.draw_whitespace(4, Point::new(2, 3), Baseline::Top).unwrap();
    render(&drawing, &mut display);

    assert_eq!(drawing.next_position, Point::new(6, 3));
    assert_eq!(
        display.affected_area(),
        EgRectangle::new(EgPoint::new(2, 3), EgSize::new(4, 5))
    );
}

#[test]
fn style_scale_ratio_scales_layout_proportionally() {
    let metrics = hello_metrics();
    let font = hello_font(&metrics);
    let preset = FontPreset::new(&font);
    let style = EgTextStyle::new(&preset, BinaryColor::On).with_scale_ratio(1, 2);
    let metrics = style.measure_string("1哈", Point::new(4, 5), Baseline::Top).unwrap();

    assert_eq!(style.scale_ratio(), (1, 2));
    assert!(style.is_scaled());
    assert_eq!(metrics.bounding_box.size, Size::new(12, 7));
    assert_eq!(metrics.next_position, Point::new(16, 5));
}

#[test]
fn style_scale_ratio_supports_fractional_ratio() {
    let metrics = hello_metrics();
    let font = hello_font(&metrics);
    let preset = FontPreset::new(&font);
    let style = EgTextStyle::new(&preset, BinaryColor::On).with_scale_ratio(3, 2);
    let metrics = style.measure_string("1哈", Point::new(4, 5), Baseline::Top).unwrap();

    assert_eq!(style.scale_ratio(), (3, 2));
    assert_eq!(metrics.bounding_box.size, Size::new(36, 22));
    assert_eq!(metrics.next_position, Point::new(40, 5));
}

#[test]
fn style_scale_ratio_interpolates_glyph_bitmap() {
    let metrics = unit_metrics();
    let font = unit_font(&metrics);
    let preset = FontPreset::new(&font);
    let style = EgTextStyle::new(&preset, BinaryColor::On).with_scale_ratio(2, 1);
    let mut display = MockDisplay::new();
    display.set_allow_out_of_bounds_drawing(true);

    let drawing = style.draw_string("A", Point::zero(), Baseline::Top).unwrap();
    render(&drawing, &mut display);

    assert_eq!(drawing.next_position, Point::new(2, 0));
    assert_eq!(display.get_pixel(EgPoint::new(0, 0)), Some(BinaryColor::On));
    assert_eq!(display.get_pixel(EgPoint::new(1, 0)), Some(BinaryColor::On));
    assert_eq!(display.get_pixel(EgPoint::new(0, 1)), Some(BinaryColor::On));
    assert_eq!(display.get_pixel(EgPoint::new(1, 1)), Some(BinaryColor::On));
}

#[test]
fn draw_string_emits_background_then_glyph_per_cell() {
    let metrics = simple_metrics();
    let font = simple_font(&metrics);
    let preset = FontPreset::new(&font);
    let style = EgTextStyle::with_background(&preset, BinaryColor::On, BinaryColor::Off);

    let drawing = style.draw_string("A哈", Point::zero(), Baseline::Top).unwrap();

    assert_eq!(
        drawing.ops,
        vec![
            DrawOp::Fill {
                area: Rectangle::new(Point::new(0, 0), Size::new(3, 5)),
                color: BinaryColor::Off
            },
            DrawOp::Pixel { point: Point::new(1, 3), color: BinaryColor::On },
            DrawOp::Fill {
                area: Rectangle::new(Point::new(3, 0), Size::new(5, 5)),
                color: BinaryColor::Off
            },
            DrawOp::Pixel { point: Point::new(5, 3), color: BinaryColor::On },
        ]
    );
}

#[test]
fn transparent_text_draws_only_background() {
    let metrics = simple_metrics();
    let font = simple_font(&metrics);
    let preset = FontPreset::new(&font);
    let mut style = EgTextStyle::with_background(&preset, BinaryColor::On, BinaryColor::Off);
    style.set_text_color(None);

    let drawing = style.draw_string("A哈", Point::zero(), Baseline::Top).unwrap();

    assert_eq!(drawing.ops.len(), 2);
    assert!(drawing.ops.iter().all(|op| matches!(op, DrawOp::Fill { .. })));

    style.set_text_color(Some(BinaryColor::Off));
    let drawing = style.draw_string("A", Point::zero(), Baseline::Top).unwrap();
    assert_eq!(drawing.ops.len(), 2);
    assert_eq!(drawing.ops[1], DrawOp::Pixel { point: Point::new(1, 3), color: BinaryColor::Off });
}

#[test]
fn missing_glyph_draws_only_background() {
    let metrics = simple_metrics();
    let font = simple_font(&metrics);
    let preset = FontPreset::new(&font);
    let style = EgTextStyle::with_background(&preset, BinaryColor::On, BinaryColor::Off);

    let drawing = style.draw_string("Z", Point::zero(), Baseline::Top).unwrap();

    assert_eq!(
        drawing.ops,
        vec![DrawOp::Fill {
            area: Rectangle::new(Point::new(0, 0), Size::new(3, 5)),
            color: BinaryColor::Off
        }]
    );
    assert_eq!(drawing.next_position, Point::new(3, 0));
}

#[test]
fn unit_ratio_renders_like_unscaled() {
    let metrics = hello_metrics();
    let font = hello_font(&metrics);
    let preset = FontPreset::new(&font);
    let plain = EgTextStyle::new(&preset, BinaryColor::On);
    let unit = EgTextStyle::new(&preset, BinaryColor::On).with_scale_ratio(7, 7);

    assert!(unit.is_scaled());
    let a = plain.draw_string("1H哈x", Point::new(3, 9), Baseline::Alphabetic).unwrap();
    let b = unit.draw_string("1H哈x", Point::new(3, 9), Baseline::Alphabetic).unwrap();
    assert!(!a.ops.is_empty());
    assert_eq!(a, b);
}

#[test]
fn draw_and_measure_end_at_same_position() {
    let metrics = hello_metrics();
    let font = hello_font(&metrics);
    let preset = FontPreset::new(&font);
    let style = EgTextStyle::new(&preset, BinaryColor::On).with_scale_ratio(3, 2);
    let drawing = style.draw_string("1哈Hz", Point::new(-5, 40), Baseline::Middle).unwrap();
    let measured = style.measure_string("1哈Hz", Point::new(-5, 40), Baseline::Middle).unwrap();

    assert_eq!(drawing.next_position, measured.next_position);
    assert_eq!(measured.next_position, Point::new(-5 + 12 + 24 + 12 + 12, 40));
}

#[test]
fn overflowing_positions_are_refused() {
    let metrics = hello_metrics();
    let font = hello_font(&metrics);
    let preset = FontPreset::new(&font);
    let style = EgTextStyle::new(&preset, BinaryColor::On);

    assert_eq!(style.measure_string("1", Point::new(i32::MAX - 3, 0), Baseline::Top), None);
    assert_eq!(style.measure_string("1", Point::new(0, i32::MIN), Baseline::Bottom), None);
    assert!(style.draw_string("1", Point::new(i32::MAX - 3, 0), Baseline::Top).is_none());
    assert!(style.draw_whitespace(10, Point::new(i32::MAX - 3, 0), Baseline::Top).is_none());
    assert!(style.measure_string("1", Point::new(i32::MAX - 8, 0), Baseline::Top).is_some());
}

#[test]
fn line_height_scales_to_logical_height() {
    let metrics = hello_metrics();
    let font = hello_font(&metrics);
    let preset = FontPreset::new(&font);
    let style = EgTextStyle::new(&preset, BinaryColor::On);

    // 18 * 16 / 20 rounded half up
    assert_eq!(style.line_height(), 14);
    // 1 * 16 / 20 rounded half up
    assert_eq!(style.scaled_baseline_from_bottom(), 1);
    assert_eq!(style.scaled_alphabetic_baseline_offset(), 13);
    assert_eq!(style.baseline_offset(Baseline::Middle), 6);
    assert_eq!(style.character_width('a'), 8);
    assert_eq!(style.character_width('字'), 16);
}

#[test]
fn measuring_in_pieces_adds_up() {
    let metrics = hello_metrics();
    let font = hello_font(&metrics);
    let preset = FontPreset::new(&font);
    let style = EgTextStyle::new(&preset, BinaryColor::On).with_scale_ratio(5, 3);
    let whole = style.measure_string("1哈Hz字", Point::zero(), Baseline::Top).unwrap();
    let first = style.measure_string("1哈", Point::zero(), Baseline::Top).unwrap();
    let rest = style.measure_string("Hz字", first.next_position, Baseline::Top).unwrap();

    assert_eq!(whole.bounding_box.size.width, first.bounding_box.size.width + rest.bounding_box.size.width);
    assert_eq!(whole.next_position, rest.next_position);
    assert_eq!(style.character_width('1'), 13);
    assert_eq!(whole.bounding_box.size.width, 13 + 27 + 13 + 13 + 27);
}

#[test]
fn performing_stops_at_first_failed_call() {
    let metrics = simple_metrics();
    let font = simple_font(&metrics);
    let preset = FontPreset::new(&font);
    let style = EgTextStyle::with_background(&preset, BinaryColor::On, BinaryColor::Off);
    let drawing = style.draw_string("AA", Point::new(0, 0), Baseline::Top).unwrap();
    assert!(drawing.ops.len() > 3);

    let mut performed = Vec::new();
    let mut step = drawing.first_step::<u8>();
    loop {
        match step {
            DrawStep::Perform(index) => {
                performed.push(index);
                let outcome = if index == 2 { Err(7) } else { Ok(()) };
                step = drawing.next_step(index, outcome);
            }
            _ => break,
        }
    }
    assert_eq!(step, DrawStep::Failed(7));
    assert_eq!(performed, vec![0, 1, 2]);
}

#[test]
fn performing_without_failures_ends_at_next_position() {
    let metrics = simple_metrics();
    let font = simple_font(&metrics);
    let preset = FontPreset::new(&font);
    let style = EgTextStyle::new(&preset, BinaryColor::On);
    let drawing = style.draw_string("A哈", Point::new(1, 2), Baseline::Top).unwrap();

    let mut count = 0;
    let mut step = drawing.first_step::<u8>();
    while let DrawStep::Perform(index) = step {
        assert_eq!(index, count);
        count += 1;
        step = drawing.next_step(index, Ok(()));
    }
    assert_eq!(count, drawing.ops.len());
    assert_eq!(step, DrawStep::Done(Point::new(9, 2)));

    let empty: Drawing<BinaryColor> = Drawing { ops: Vec::new(), next_position: Point::new(4, 5) };
    assert_eq!(empty.first_step::<u8>(), DrawStep::Done(Point::new(4, 5)));
}

#[test]
fn draw_string_returns_the_first_display_error() {
    let metrics = simple_metrics();
    let font = simple_font(&metrics);
    let preset = FontPreset::new(&font);
    let style = Renderer(EgTextStyle::with_background(&preset, BinaryColor::On, BinaryColor::Off));
    let mut display = FailingDisplay { calls: 0, fail_at: 1 };
    let result = style.draw_string("AA", EgPoint::new(0, 0), EgBaseline::Top, &mut display);
    assert_eq!(result, Err(1));
    assert_eq!(display.calls, 2);

    let mut display = FailingDisplay { calls: 0, fail_at: usize::MAX };
    let result = style.draw_string("AA", EgPoint::new(0, 0), EgBaseline::Top, &mut display);
    assert_eq!(result, Ok(EgPoint::new(6, 0)));
}

#[test]
fn scale_ratio_is_the_last_one_set() {
    let metrics = simple_metrics();
    let font = simple_font(&metrics);
    let preset = FontPreset::new(&font);
    let mut style = EgTextStyle::new(&preset, BinaryColor::On);
    assert_eq!(style.scale_ratio(), (1, 1));
    style.set_text_color(None);
    style.set_background_color(Some(BinaryColor::Off));
    assert_eq!(style.scale_ratio(), (1, 1));

    let mut style = style.with_scale_ratio(3, 2);
    style.set_text_color(Some(BinaryColor::Off));
    style.set_background_color(None);
    assert_eq!(style.scale_ratio(), (3, 2));
    assert_eq!(style.with_scale_ratio(1, 2).scale_ratio(), (1, 2));
}

#[test]
fn clearing_the_background_stops_cell_fills() {
    let metrics = simple_metrics();
    let font = simple_font(&metrics);
    let preset = FontPreset::new(&font);
    let mut style = EgTextStyle::with_background(&preset, BinaryColor::On, BinaryColor::Off);
    style.set_background_color(None);
    let drawing = style.draw_string("A", Point::new(0, 0), Baseline::Top).unwrap();
    assert!(drawing.ops.iter().all(|op| matches!(op, DrawOp::Pixel { .. })));
}
