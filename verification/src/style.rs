//! The text style: horizontal advance per character, vertical metrics scaled
//! to the logical height, baseline anchoring, glyph placement, optional
//! proportional scaling, and the drawing operations that render a string.
use vstd::prelude::*;

use crate::bitmap::{
    glyph_bitmap_bit, interpolated_glyph_bit_for_ratio, interpolation_fits,
    lemma_interpolation_same_size, spec_glyph_bitmap_bit, spec_interpolated_glyph_bit,
};
use crate::font::{FontData, FontPreset, GlyphMetrics};
use crate::geometry::{Baseline, DrawOp, Drawing, Point, Rectangle, Size, TextMetrics};
use crate::scale::{
    clamp_i32, lemma_scale_by_one, lemma_scale_i32_by_one, non_zero_or_one, sat_i32,
    scale_i32_ratio, scale_ratio_nonzero, scale_u32, spec_non_zero_or_one, spec_scale_i32_ratio,
    spec_scale_ratio_nonzero, spec_scale_u32, u32_to_i32_sat,
};

verus! {

/// Whether `c` is an ASCII character.
pub open spec fn is_ascii_char(c: char) -> bool {
    (c as u32) < 128
}

/// `a + b`, saturating at `u32::MAX`.
pub open spec fn sat_add_u32(a: u32, b: u32) -> u32 {
    if a + b > u32::MAX {
        u32::MAX
    } else {
        (a + b) as u32
    }
}

/// `a - b`, saturating at zero.
pub open spec fn sat_sub_u32(a: u32, b: u32) -> u32 {
    if a < b {
        0
    } else {
        (a - b) as u32
    }
}

/// The value of `value as i32` (two's complement reinterpretation).
pub open spec fn wrap_i32(value: u32) -> int {
    if value > i32::MAX {
        value - 0x1_0000_0000int
    } else {
        value as int
    }
}

/// Whether `v` is an `i32` value.
pub open spec fn fits_i32(v: int) -> bool {
    i32::MIN <= v <= i32::MAX
}

/// Whether moving `p` by `(dx, dy)` stays within `i32` coordinates.
pub open spec fn translate_fits(p: Point, dx: int, dy: int) -> bool {
    fits_i32(p.x + dx) && fits_i32(p.y + dy)
}

/// `p` moved by `(dx, dy)`.
pub open spec fn translate(p: Point, dx: int, dy: int) -> Point {
    Point { x: (p.x + dx) as i32, y: (p.y + dy) as i32 }
}

/// Moves `p` by `(dx, dy)`, or `None` when a coordinate leaves `i32`.
pub fn checked_translate(p: Point, dx: i32, dy: i32) -> (r: Option<Point>)
    ensures
        r is Some <==> translate_fits(p, dx as int, dy as int),
        r matches Some(q) ==> q == translate(p, dx as int, dy as int),
{
    match p.x.checked_add(dx) {
        None => None,
        Some(x) => match p.y.checked_add(dy) {
            None => None,
            Some(y) => Some(Point { x, y }),
        },
    }
}

/// Whether `c` is ASCII.
pub fn char_is_ascii(c: char) -> (r: bool)
    ensures
        r == is_ascii_char(c),
{
    (c as u32) < 128
}

/// `embedded-graphics` style text renderer state for a [`FontPreset`]:
/// colors, transparency of the text and a proportional scale ratio.
#[derive(Debug, Clone, Copy, PartialEq, Eq)]
pub struct EgTextStyle<'a, C> {
    pub preset: &'a FontPreset<'a>,
    pub text_color: C,
    pub background_color: Option<C>,
    text_transparent: bool,
    scale_numerator: u32,
    scale_denominator: u32,
}

impl<'a, C> EgTextStyle<'a, C> {
    /// Numerator of the scale ratio.
    pub closed spec fn numerator(self) -> u32 {
        self.scale_numerator
    }

    /// Denominator of the scale ratio.
    pub closed spec fn denominator(self) -> u32 {
        self.scale_denominator
    }

    /// Whether glyphs are left undrawn (the text color was unset).
    pub closed spec fn transparent(self) -> bool {
        self.text_transparent
    }

    /// The font a style renders with is the font data of its preset.
    pub proof fn lemma_font_of_preset(self)
        ensures
            self.font() == *self.style_preset().font,
    {
    }

    /// Every style holds a ratio with non-zero numerator and denominator.
    pub open spec fn wf(self) -> bool {
        self.numerator() != 0 && self.denominator() != 0
    }

    /// The font data of the preset.
    pub closed spec fn font(self) -> FontData<'a> {
        *self.preset.font
    }

    /// The preset the style renders with.
    pub closed spec fn style_preset(self) -> &'a FontPreset<'a> {
        self.preset
    }

    /// The color glyph pixels are drawn in.
    pub closed spec fn color(self) -> C {
        self.text_color
    }

    /// The color cell backgrounds are filled with, if any.
    pub closed spec fn background(self) -> Option<C> {
        self.background_color
    }

    /// Whether the ratio differs from one to one.
    pub open spec fn spec_is_scaled(self) -> bool {
        self.numerator() != 1 || self.denominator() != 1
    }

    /// `value` scaled by the style's ratio, never zero unless `value` is.
    pub open spec fn ratio_scaled(self, value: u32) -> u32 {
        spec_scale_ratio_nonzero(value, self.numerator(), self.denominator())
    }

    /// Horizontal advance of `c`: `half_width` for ASCII, `full_width`
    /// otherwise, scaled by the ratio.
    pub open spec fn spec_character_width(self, c: char) -> u32 {
        self.ratio_scaled(
            if is_ascii_char(c) {
                self.font().layout.half_width
            } else {
                self.font().layout.full_width
            },
        )
    }

    /// Logical height: `full_width` scaled by the ratio.
    pub open spec fn spec_logical_height(self) -> u32 {
        self.ratio_scaled(self.font().layout.full_width)
    }

    /// Glyph width as rendered: scaled by the ratio when the style is scaled.
    pub open spec fn spec_rendered_glyph_box_w(self, glyph: GlyphMetrics) -> u32 {
        if self.spec_is_scaled() {
            self.ratio_scaled(glyph.box_w)
        } else {
            glyph.box_w
        }
    }

    /// Glyph height as rendered: scaled by the ratio when the style is scaled.
    pub open spec fn spec_rendered_glyph_box_h(self, glyph: GlyphMetrics) -> u32 {
        if self.spec_is_scaled() {
            self.ratio_scaled(glyph.box_h)
        } else {
            glyph.box_h
        }
    }

    /// Whether the vertical glyph offset can be scaled (its magnitude must
    /// exist as an `i32`).
    pub open spec fn glyph_ofs_y_fits(self, glyph: GlyphMetrics) -> bool {
        self.spec_is_scaled() ==> glyph.ofs_y != i32::MIN
    }

    /// Vertical glyph offset as rendered: scaled by the ratio when the style
    /// is scaled.
    pub open spec fn spec_rendered_glyph_ofs_y(self, glyph: GlyphMetrics) -> i32 {
        if self.spec_is_scaled() {
            spec_scale_i32_ratio(glyph.ofs_y, self.numerator(), self.denominator())
        } else {
            glyph.ofs_y
        }
    }

    /// A native vertical metric scaled from the native font size to the
    /// logical height; non-zero metrics stay non-zero.
    pub open spec fn spec_scaled_vertical_metric(self, value: u32) -> u32 {
        let native = spec_non_zero_or_one(self.font().vertical_metrics.native_size);
        let scaled = spec_scale_u32(value, self.spec_logical_height(), native);
        if value > 0 {
            if scaled < 1 {
                1
            } else {
                scaled
            }
        } else {
            0
        }
    }

    /// Line height scaled to the logical height.
    pub open spec fn spec_line_height(self) -> u32 {
        self.spec_scaled_vertical_metric(self.font().vertical_metrics.line_height)
    }

    /// Baseline height above the bottom of the line, scaled to the logical
    /// height.
    pub open spec fn spec_baseline_from_bottom(self) -> u32 {
        spec_scale_u32(
            self.font().vertical_metrics.baseline,
            self.spec_logical_height(),
            spec_non_zero_or_one(self.font().vertical_metrics.native_size),
        )
    }

    /// Distance from the top of the line to the alphabetic baseline.
    pub open spec fn spec_alphabetic_offset(self) -> u32 {
        sat_sub_u32(self.spec_line_height(), self.spec_baseline_from_bottom())
    }

    /// Distance from the top of the line to the anchor `baseline`.
    pub open spec fn spec_baseline_offset(self, baseline: Baseline) -> i32 {
        sat_i32(
            match baseline {
                Baseline::Top => 0,
                Baseline::Bottom => sat_sub_u32(self.spec_line_height(), 1),
                Baseline::Middle => (sat_sub_u32(self.spec_line_height(), 1) / 2) as u32,
                Baseline::Alphabetic => self.spec_alphabetic_offset(),
            },
        )
    }

    /// Difference between cell width and glyph width, as the `i32` values
    /// the widths are reinterpreted as.
    pub open spec fn glyph_width_slack(self, c: char, glyph: GlyphMetrics) -> int {
        wrap_i32(self.spec_character_width(c)) - wrap_i32(self.spec_rendered_glyph_box_w(glyph))
    }

    /// Horizontal offset that centres the glyph in its cell (halved toward
    /// zero).
    pub open spec fn spec_glyph_x_offset(self, c: char, glyph: GlyphMetrics) -> int {
        let d = self.glyph_width_slack(c, glyph);
        if d >= 0 {
            d / 2
        } else {
            -((-d) / 2)
        }
    }

    /// Vertical offset of the glyph's top from the cell's top: the glyph sits
    /// on the alphabetic baseline, moved up by its vertical offset.
    pub open spec fn spec_glyph_y_offset(self, glyph: GlyphMetrics) -> i32 {
        let y = sat_sub_u32(self.spec_alphabetic_offset(), self.spec_rendered_glyph_box_h(glyph));
        clamp_i32(sat_i32(y) - self.spec_rendered_glyph_ofs_y(glyph))
    }

    /// Whether placing `glyph` in the cell at `cell_origin` stays within the
    /// arithmetic of `i32`.
    pub open spec fn glyph_origin_fits(self, c: char, cell_origin: Point, glyph: GlyphMetrics) -> bool {
        &&& self.glyph_ofs_y_fits(glyph)
        &&& fits_i32(self.glyph_width_slack(c, glyph))
        &&& translate_fits(
            cell_origin,
            self.spec_glyph_x_offset(c, glyph),
            self.spec_glyph_y_offset(glyph) as int,
        )
    }

    /// Top-left corner of `glyph` drawn in the cell at `cell_origin`.
    pub open spec fn spec_glyph_origin(self, c: char, cell_origin: Point, glyph: GlyphMetrics) -> Point {
        translate(
            cell_origin,
            self.spec_glyph_x_offset(c, glyph),
            self.spec_glyph_y_offset(glyph) as int,
        )
    }

    /// Whether sampling the rendered glyph pixel `(x, y)` stays within `i64`.
    pub open spec fn glyph_bit_fits(self, glyph: GlyphMetrics, x: u32, y: u32) -> bool {
        self.spec_is_scaled() ==> interpolation_fits(glyph, self.numerator(), self.denominator(), x, y)
    }

    /// Rendered glyph pixel `(x, y)`: the bitmap pixel, or its interpolated
    /// resampling when the style is scaled.
    pub open spec fn spec_glyph_bit(self, glyph: GlyphMetrics, x: u32, y: u32) -> bool {
        if self.spec_is_scaled() {
            spec_interpolated_glyph_bit(
                self.font().bitmap@,
                glyph,
                self.numerator(),
                self.denominator(),
                x,
                y,
            )
        } else {
            spec_glyph_bitmap_bit(self.font().bitmap@, glyph, x, y)
        }
    }

    /// The pixel operation for rendered glyph pixel `(x, y)`.
    pub open spec fn pixel_op(self, origin: Point, x: u32, y: u32) -> DrawOp<C> {
        DrawOp::Pixel {
            point: translate(origin, sat_i32(x) as int, sat_i32(y) as int),
            color: self.color(),
        }
    }

    /// Whether rendered glyph pixel `(x, y)` can be sampled and, when set,
    /// placed within `i32` coordinates.
    pub open spec fn pixel_fits(self, glyph: GlyphMetrics, origin: Point, x: u32, y: u32) -> bool {
        &&& self.glyph_bit_fits(glyph, x, y)
        &&& self.spec_glyph_bit(glyph, x, y) ==> translate_fits(
            origin,
            sat_i32(x) as int,
            sat_i32(y) as int,
        )
    }

    /// Pixel operations for the first `n` pixels of glyph row `y`.
    pub open spec fn glyph_row_ops(self, glyph: GlyphMetrics, origin: Point, y: u32, n: nat) -> Seq<
        DrawOp<C>,
    >
        decreases n,
    {
        if n == 0 {
            Seq::empty()
        } else {
            let x = (n - 1) as u32;
            self.glyph_row_ops(glyph, origin, y, (n - 1) as nat) + if self.spec_glyph_bit(
                glyph,
                x,
                y,
            ) {
                seq![self.pixel_op(origin, x, y)]
            } else {
                Seq::empty()
            }
        }
    }

    /// Pixel operations for the first `m` rows of the rendered glyph, row by
    /// row, left to right.
    pub open spec fn glyph_rows_ops(self, glyph: GlyphMetrics, origin: Point, m: nat) -> Seq<
        DrawOp<C>,
    >
        decreases m,
    {
        if m == 0 {
            Seq::empty()
        } else {
            self.glyph_rows_ops(glyph, origin, (m - 1) as nat) + self.glyph_row_ops(
                glyph,
                origin,
                (m - 1) as u32,
                self.spec_rendered_glyph_box_w(glyph) as nat,
            )
        }
    }

    /// The operations that draw `glyph` for `c` in the cell at `cell_origin`:
    /// nothing when the text is transparent, otherwise one pixel per set
    /// rendered pixel.
    pub open spec fn glyph_ops(self, c: char, cell_origin: Point, glyph: GlyphMetrics) -> Seq<
        DrawOp<C>,
    > {
        if self.transparent() {
            Seq::empty()
        } else {
            self.glyph_rows_ops(
                glyph,
                self.spec_glyph_origin(c, cell_origin, glyph),
                self.spec_rendered_glyph_box_h(glyph) as nat,
            )
        }
    }

    /// Whether drawing `glyph` for `c` in the cell at `cell_origin` stays
    /// within machine arithmetic.
    pub open spec fn glyph_fits(self, c: char, cell_origin: Point, glyph: GlyphMetrics) -> bool {
        self.transparent() || {
            &&& self.glyph_origin_fits(c, cell_origin, glyph)
            &&& forall|x: u32, y: u32|
                x < self.spec_rendered_glyph_box_w(glyph) && y < self.spec_rendered_glyph_box_h(glyph)
                    ==> #[trigger] self.pixel_fits(
                    glyph,
                    self.spec_glyph_origin(c, cell_origin, glyph),
                    x,
                    y,
                )
        }
    }

    /// The background fill of a cell `width` wide at `origin`, if any.
    pub open spec fn background_ops(self, width: u32, origin: Point) -> Seq<DrawOp<C>> {
        if width == 0 {
            Seq::empty()
        } else {
            match self.background() {
                Some(color) => seq![
                    DrawOp::Fill {
                        area: Rectangle {
                            top_left: origin,
                            size: Size { width, height: self.spec_line_height() },
                        },
                        color,
                    },
                ],
                None => Seq::empty(),
            }
        }
    }

    /// Horizontal advance of a character sequence: the saturating sum of the
    /// character widths.
    pub open spec fn spec_advance(self, chars: Seq<char>) -> u32
        decreases chars.len(),
    {
        if chars.len() == 0 {
            0
        } else {
            sat_add_u32(self.spec_advance(chars.drop_last()), self.spec_character_width(chars.last()))
        }
    }

    /// The cell of a character that starts `cursor` pixels right of
    /// `top_left`.
    pub open spec fn cell_origin(self, top_left: Point, cursor: u32) -> Point {
        translate(top_left, sat_i32(cursor) as int, 0)
    }

    /// The operations that draw `c` in the cell at `cell_origin`: the cell
    /// background, then the glyph if the font has one.
    pub open spec fn char_ops(self, c: char, cell_origin: Point) -> Seq<DrawOp<C>> {
        self.background_ops(self.spec_character_width(c), cell_origin) + match self.font().spec_glyph_for_char(c) {
            Some(glyph) => self.glyph_ops(c, cell_origin, glyph),
            None => Seq::empty(),
        }
    }

    /// Whether drawing `c` with its cell `cursor` pixels right of `top_left`
    /// stays within machine arithmetic.
    pub open spec fn char_fits(self, c: char, top_left: Point, cursor: u32) -> bool {
        &&& translate_fits(top_left, sat_i32(cursor) as int, 0)
        &&& match self.font().spec_glyph_for_char(c) {
            Some(glyph) => self.glyph_fits(c, self.cell_origin(top_left, cursor), glyph),
            None => true,
        }
    }

    /// The operations that draw `chars` on a line whose top-left corner is
    /// `top_left`, character after character.
    pub open spec fn string_ops(self, chars: Seq<char>, top_left: Point) -> Seq<DrawOp<C>>
        decreases chars.len(),
    {
        if chars.len() == 0 {
            Seq::empty()
        } else {
            self.string_ops(chars.drop_last(), top_left) + self.char_ops(
                chars.last(),
                self.cell_origin(top_left, self.spec_advance(chars.drop_last())),
            )
        }
    }

    /// Whether drawing `chars` from `top_left` stays within machine arithmetic.
    pub open spec fn string_fits(self, chars: Seq<char>, top_left: Point) -> bool
        decreases chars.len(),
    {
        chars.len() == 0 || {
            &&& self.string_fits(chars.drop_last(), top_left)
            &&& self.char_fits(
                chars.last(),
                top_left,
                self.spec_advance(chars.drop_last()),
            )
        }
    }

    /// The top-left corner of a line anchored at `position` by `baseline`.
    pub open spec fn line_top_left(self, position: Point, baseline: Baseline) -> Point {
        translate(position, 0, -self.spec_baseline_offset(baseline))
    }

    /// Whether the top-left corner of the anchored line is an `i32` point.
    pub open spec fn line_top_left_fits(self, position: Point, baseline: Baseline) -> bool {
        translate_fits(position, 0, -self.spec_baseline_offset(baseline))
    }

    /// The position after advancing `width` pixels from `position`.
    pub open spec fn advanced(self, position: Point, width: u32) -> Point {
        translate(position, sat_i32(width) as int, 0)
    }

    /// Whether drawing `chars` anchored at `position` stays within machine
    /// arithmetic.
    pub open spec fn draw_string_fits(self, chars: Seq<char>, position: Point, baseline: Baseline) -> bool {
        &&& self.line_top_left_fits(position, baseline)
        &&& self.string_fits(chars, self.line_top_left(position, baseline))
        &&& translate_fits(position, sat_i32(self.spec_advance(chars)) as int, 0)
    }

    /// Whether measuring `chars` anchored at `position` stays within machine
    /// arithmetic.
    pub open spec fn measure_fits(self, chars: Seq<char>, position: Point, baseline: Baseline) -> bool {
        &&& self.line_top_left_fits(position, baseline)
        &&& translate_fits(position, sat_i32(self.spec_advance(chars)) as int, 0)
    }

    /// The metrics of `chars` anchored at `position`: a box as wide as the
    /// advance and as high as the line, and the advanced position.
    pub open spec fn spec_measure(self, chars: Seq<char>, position: Point, baseline: Baseline) -> TextMetrics {
        TextMetrics {
            bounding_box: Rectangle {
                top_left: self.line_top_left(position, baseline),
                size: Size { width: self.spec_advance(chars), height: self.spec_line_height() },
            },
            next_position: self.advanced(position, self.spec_advance(chars)),
        }
    }

    /// Whether a `width` pixel gap anchored at `position` stays within
    /// machine arithmetic.
    pub open spec fn whitespace_fits(self, width: u32, position: Point, baseline: Baseline) -> bool {
        &&& self.line_top_left_fits(position, baseline)
        &&& translate_fits(position, sat_i32(width) as int, 0)
    }


    /// With transparent text, drawing a string emits background fills only.
    pub proof fn lemma_transparent_draws_only_backgrounds(self, chars: Seq<char>, top_left: Point)
        requires
            self.transparent(),
        ensures
            forall|i: int|
                0 <= i < self.string_ops(chars, top_left).len() ==> #[trigger] self.string_ops(
                    chars,
                    top_left,
                )[i] is Fill,
        decreases chars.len(),
    {
        if chars.len() > 0 {
            self.lemma_transparent_draws_only_backgrounds(chars.drop_last(), top_left);
        }
    }

    /// Characters that have no glyph in the font are not drawn: a string
    /// none of whose characters has a glyph emits background fills only.
    pub proof fn lemma_missing_glyphs_draw_only_backgrounds(self, chars: Seq<char>, top_left: Point)
        requires
            forall|i: int| 0 <= i < chars.len() ==> self.font().spec_glyph_for_char(#[trigger] chars[i]) is None,
        ensures
            forall|i: int|
                0 <= i < self.string_ops(chars, top_left).len() ==> #[trigger] self.string_ops(
                    chars,
                    top_left,
                )[i] is Fill,
        decreases chars.len(),
    {
        if chars.len() > 0 {
            assert forall|i: int| 0 <= i < chars.drop_last().len() implies self.font().spec_glyph_for_char(
                #[trigger] chars.drop_last()[i],
            ) is None by {
                assert(chars.drop_last()[i] == chars[i]);
            }
            assert(self.font().spec_glyph_for_char(chars[chars.len() - 1]) is None);
            self.lemma_missing_glyphs_draw_only_backgrounds(chars.drop_last(), top_left);
        }
    }

    /// Every operation of the first `n` pixels of a glyph row is a pixel.
    proof fn lemma_row_ops_are_pixels(self, glyph: GlyphMetrics, origin: Point, y: u32, n: nat)
        ensures
            forall|i: int|
                0 <= i < self.glyph_row_ops(glyph, origin, y, n).len() ==> #[trigger] self.glyph_row_ops(
                    glyph,
                    origin,
                    y,
                    n,
                )[i] is Pixel,
        decreases n,
    {
        if n > 0 {
            self.lemma_row_ops_are_pixels(glyph, origin, y, (n - 1) as nat);
        }
    }

    /// Every operation of the first `m` glyph rows is a pixel.
    proof fn lemma_rows_ops_are_pixels(self, glyph: GlyphMetrics, origin: Point, m: nat)
        ensures
            forall|i: int|
                0 <= i < self.glyph_rows_ops(glyph, origin, m).len() ==> #[trigger] self.glyph_rows_ops(
                    glyph,
                    origin,
                    m,
                )[i] is Pixel,
        decreases m,
    {
        if m > 0 {
            self.lemma_rows_ops_are_pixels(glyph, origin, (m - 1) as nat);
            self.lemma_row_ops_are_pixels(
                glyph,
                origin,
                (m - 1) as u32,
                self.spec_rendered_glyph_box_w(glyph) as nat,
            );
        }
    }

    /// Without a background color, drawing a string emits glyph pixels only.
    pub proof fn lemma_no_background_draws_only_pixels(self, chars: Seq<char>, top_left: Point)
        requires
            self.background() is None,
        ensures
            forall|i: int|
                0 <= i < self.string_ops(chars, top_left).len() ==> #[trigger] self.string_ops(
                    chars,
                    top_left,
                )[i] is Pixel,
        decreases chars.len(),
    {
        if chars.len() > 0 {
            self.lemma_no_background_draws_only_pixels(chars.drop_last(), top_left);
            let c = chars.last();
            let cell = self.cell_origin(top_left, self.spec_advance(chars.drop_last()));
            match self.font().spec_glyph_for_char(c) {
                Some(glyph) => {
                    if !self.transparent() {
                        self.lemma_rows_ops_are_pixels(
                            glyph,
                            self.spec_glyph_origin(c, cell, glyph),
                            self.spec_rendered_glyph_box_h(glyph) as nat,
                        );
                    }
                },
                None => {},
            }
        }
    }

    /// Drawing a string and measuring it agree: whenever the string can be
    /// drawn it can be measured, and both end at the same position, one
    /// line-height box as wide as the advance.
    pub proof fn lemma_draw_and_measure_agree(self, chars: Seq<char>, position: Point, baseline: Baseline)
        ensures
            self.draw_string_fits(chars, position, baseline) ==> self.measure_fits(
                chars,
                position,
                baseline,
            ),
            self.spec_measure(chars, position, baseline).next_position == self.advanced(
                position,
                self.spec_advance(chars),
            ),
            self.spec_measure(chars, position, baseline).bounding_box.top_left == self.line_top_left(
                position,
                baseline,
            ),
    {
    }

    /// At the default one-to-one ratio the style is unscaled: ASCII
    /// characters advance by `half_width`, all others by `full_width`, and
    /// the logical height is `full_width`.
    pub proof fn lemma_default_ratio_uses_font_widths(self, c: char)
        requires
            self.numerator() == 1,
            self.denominator() == 1,
        ensures
            !self.spec_is_scaled(),
            self.spec_character_width(c) == if is_ascii_char(c) {
                self.font().layout.half_width
            } else {
                self.font().layout.full_width
            },
            self.spec_logical_height() == self.font().layout.full_width,
    {
        lemma_scale_by_one(self.font().layout.half_width, 1);
        lemma_scale_by_one(self.font().layout.full_width, 1);
    }

    /// A style whose ratio has equal numerator and denominator has the
    /// horizontal and vertical metrics of the unscaled style.
    pub proof fn lemma_unit_ratio_layout(self, plain: Self)
        requires
            self.numerator() == self.denominator(),
            self.numerator() != 0,
            plain.numerator() == 1,
            plain.denominator() == 1,
            plain.font() == self.font(),
        ensures
            forall|c: char| #[trigger] self.spec_character_width(c) == plain.spec_character_width(c),
            self.spec_logical_height() == plain.spec_logical_height(),
            self.spec_line_height() == plain.spec_line_height(),
            self.spec_alphabetic_offset() == plain.spec_alphabetic_offset(),
            forall|b: Baseline| #[trigger] self.spec_baseline_offset(b) == plain.spec_baseline_offset(b),
    {
        let layout = self.font().layout;
        lemma_scale_by_one(layout.half_width, self.numerator());
        lemma_scale_by_one(layout.full_width, self.numerator());
        lemma_scale_by_one(layout.half_width, 1);
        lemma_scale_by_one(layout.full_width, 1);
    }

    /// A style whose ratio has equal numerator and denominator renders every
    /// glyph at its own size, offset and pixels, like the unscaled style.
    pub proof fn lemma_unit_ratio_glyph(self, plain: Self, glyph: GlyphMetrics)
        requires
            self.numerator() == self.denominator(),
            self.numerator() != 0,
            plain.numerator() == 1,
            plain.denominator() == 1,
            plain.font() == self.font(),
        ensures
            self.spec_rendered_glyph_box_w(glyph) == plain.spec_rendered_glyph_box_w(glyph),
            self.spec_rendered_glyph_box_h(glyph) == plain.spec_rendered_glyph_box_h(glyph),
            self.spec_rendered_glyph_ofs_y(glyph) == plain.spec_rendered_glyph_ofs_y(glyph),
            forall|x: u32, y: u32| #[trigger]
                self.spec_glyph_bit(glyph, x, y) == plain.spec_glyph_bit(glyph, x, y),
    {
        let n = self.numerator();
        lemma_scale_by_one(glyph.box_w, n);
        lemma_scale_by_one(glyph.box_h, n);
        lemma_scale_i32_by_one(glyph.ofs_y, n);
        assert forall|x: u32, y: u32| #[trigger]
            self.spec_glyph_bit(glyph, x, y) == plain.spec_glyph_bit(glyph, x, y) by {
            lemma_interpolation_same_size(self.font().bitmap@, glyph, n, x, y);
        }
    }

    /// Two styles that sample a glyph alike and draw in the same color emit
    /// the same pixels for each glyph row.
    proof fn lemma_same_row_ops(self, other: Self, glyph: GlyphMetrics, origin: Point, y: u32, n: nat)
        requires
            self.color() == other.color(),
            forall|x: u32, yy: u32| #[trigger]
                self.spec_glyph_bit(glyph, x, yy) == other.spec_glyph_bit(glyph, x, yy),
        ensures
            self.glyph_row_ops(glyph, origin, y, n) == other.glyph_row_ops(glyph, origin, y, n),
        decreases n,
    {
        if n > 0 {
            self.lemma_same_row_ops(other, glyph, origin, y, (n - 1) as nat);
            assert(self.spec_glyph_bit(glyph, (n - 1) as u32, y) == other.spec_glyph_bit(
                glyph,
                (n - 1) as u32,
                y,
            ));
        }
    }

    /// Two styles that sample and size a glyph alike and draw in the same
    /// color emit the same pixels for the glyph's rows.
    proof fn lemma_same_rows_ops(self, other: Self, glyph: GlyphMetrics, origin: Point, m: nat)
        requires
            self.color() == other.color(),
            self.spec_rendered_glyph_box_w(glyph) == other.spec_rendered_glyph_box_w(glyph),
            forall|x: u32, yy: u32| #[trigger]
                self.spec_glyph_bit(glyph, x, yy) == other.spec_glyph_bit(glyph, x, yy),
        ensures
            self.glyph_rows_ops(glyph, origin, m) == other.glyph_rows_ops(glyph, origin, m),
        decreases m,
    {
        if m > 0 {
            self.lemma_same_rows_ops(other, glyph, origin, (m - 1) as nat);
            self.lemma_same_row_ops(
                other,
                glyph,
                origin,
                (m - 1) as u32,
                self.spec_rendered_glyph_box_w(glyph) as nat,
            );
        }
    }

    /// Scaling by a ratio whose numerator equals its denominator changes
    /// nothing: such a style advances, measures and draws every string
    /// exactly like the same style unscaled.
    pub proof fn lemma_unit_ratio_renders_unscaled(self, plain: Self, chars: Seq<char>, top_left: Point)
        requires
            self.numerator() == self.denominator(),
            self.numerator() != 0,
            plain.numerator() == 1,
            plain.denominator() == 1,
            plain.font() == self.font(),
            plain.color() == self.color(),
            plain.background() == self.background(),
            plain.transparent() == self.transparent(),
        ensures
            self.spec_advance(chars) == plain.spec_advance(chars),
            self.string_ops(chars, top_left) == plain.string_ops(chars, top_left),
        decreases chars.len(),
    {
        self.lemma_unit_ratio_layout(plain);
        if chars.len() > 0 {
            self.lemma_unit_ratio_renders_unscaled(plain, chars.drop_last(), top_left);
            let c = chars.last();
            let cell = self.cell_origin(top_left, self.spec_advance(chars.drop_last()));
            assert(self.background_ops(self.spec_character_width(c), cell) == plain.background_ops(
                plain.spec_character_width(c),
                cell,
            ));
            match self.font().spec_glyph_for_char(c) {
                Some(glyph) => {
                    self.lemma_unit_ratio_glyph(plain, glyph);
                    assert(self.spec_glyph_origin(c, cell, glyph) == plain.spec_glyph_origin(
                        c,
                        cell,
                        glyph,
                    ));
                    self.lemma_same_rows_ops(
                        plain,
                        glyph,
                        self.spec_glyph_origin(c, cell, glyph),
                        self.spec_rendered_glyph_box_h(glyph) as nat,
                    );
                    assert(self.glyph_ops(c, cell, glyph) == plain.glyph_ops(c, cell, glyph));
                },
                None => {},
            }
            assert(self.char_ops(c, cell) == plain.char_ops(c, cell));
        }
    }

    /// The advance of two pieces of text written one after the other is the
    /// saturating sum of their advances: text can be laid out piece by piece.
    pub proof fn lemma_advance_concat(self, a: Seq<char>, b: Seq<char>)
        ensures
            self.spec_advance(a + b) == sat_add_u32(self.spec_advance(a), self.spec_advance(b)),
        decreases b.len(),
    {
        if b.len() == 0 {
            assert(a + b =~= a);
        } else {
            assert((a + b).drop_last() =~= a + b.drop_last());
            assert((a + b).last() == b.last());
            self.lemma_advance_concat(a, b.drop_last());
        }
    }

    /// Whether `op` draws a set pixel of the rendered glyph, among its first
    /// `m` rows, at `origin`.
    pub open spec fn is_glyph_pixel(self, glyph: GlyphMetrics, origin: Point, m: nat, op: DrawOp<C>) -> bool {
        exists|x: u32, y: u32|
            x < self.spec_rendered_glyph_box_w(glyph) && y < m && self.spec_glyph_bit(glyph, x, y)
                && op == #[trigger] self.pixel_op(origin, x, y)
    }

    proof fn lemma_row_ops_are_glyph_pixels(self, glyph: GlyphMetrics, origin: Point, y: u32, n: nat)
        requires
            n <= self.spec_rendered_glyph_box_w(glyph),
        ensures
            forall|i: int|
                0 <= i < self.glyph_row_ops(glyph, origin, y, n).len() ==> self.is_glyph_pixel(
                    glyph,
                    origin,
                    (y + 1) as nat,
                    #[trigger] self.glyph_row_ops(glyph, origin, y, n)[i],
                ),
        decreases n,
    {
        if n > 0 {
            self.lemma_row_ops_are_glyph_pixels(glyph, origin, y, (n - 1) as nat);
            let x = (n - 1) as u32;
            let ops = self.glyph_row_ops(glyph, origin, y, n);
            let prev = self.glyph_row_ops(glyph, origin, y, (n - 1) as nat);
            assert forall|i: int| 0 <= i < ops.len() implies self.is_glyph_pixel(
                glyph,
                origin,
                (y + 1) as nat,
                #[trigger] ops[i],
            ) by {
                if i < prev.len() {
                    assert(ops[i] == prev[i]);
                } else {
                    assert(ops[i] == self.pixel_op(origin, x, y));
                }
            }
        }
    }

    /// Every operation that draws a glyph sets one of the glyph's own set
    /// pixels: nothing is drawn outside the rendered glyph box, and no clear
    /// pixel is drawn.
    pub proof fn lemma_glyph_ops_are_glyph_pixels(self, glyph: GlyphMetrics, origin: Point, m: nat)
        ensures
            forall|i: int|
                0 <= i < self.glyph_rows_ops(glyph, origin, m).len() ==> self.is_glyph_pixel(
                    glyph,
                    origin,
                    m,
                    #[trigger] self.glyph_rows_ops(glyph, origin, m)[i],
                ),
        decreases m,
    {
        if m > 0 {
            let y = (m - 1) as u32;
            self.lemma_glyph_ops_are_glyph_pixels(glyph, origin, (m - 1) as nat);
            self.lemma_row_ops_are_glyph_pixels(
                glyph,
                origin,
                y,
                self.spec_rendered_glyph_box_w(glyph) as nat,
            );
            let ops = self.glyph_rows_ops(glyph, origin, m);
            let prev = self.glyph_rows_ops(glyph, origin, (m - 1) as nat);
            let row = self.glyph_row_ops(glyph, origin, y, self.spec_rendered_glyph_box_w(glyph) as nat);
            assert forall|i: int| 0 <= i < ops.len() implies self.is_glyph_pixel(
                glyph,
                origin,
                m,
                #[trigger] ops[i],
            ) by {
                if i < prev.len() {
                    assert(ops[i] == prev[i]);
                    assert(self.is_glyph_pixel(glyph, origin, (m - 1) as nat, prev[i]));
                } else {
                    assert(ops[i] == row[i - prev.len()]);
                    assert(self.is_glyph_pixel(glyph, origin, (y + 1) as nat, row[i - prev.len()]));
                }
            }
        }
    }

    proof fn lemma_row_ops_cover_set_pixels(self, glyph: GlyphMetrics, origin: Point, y: u32, n: nat)
        ensures
            forall|x: u32|
                x < n && self.spec_glyph_bit(glyph, x, y) ==> self.glyph_row_ops(
                    glyph,
                    origin,
                    y,
                    n,
                ).contains(#[trigger] self.pixel_op(origin, x, y)),
        decreases n,
    {
        if n > 0 {
            self.lemma_row_ops_cover_set_pixels(glyph, origin, y, (n - 1) as nat);
            let ops = self.glyph_row_ops(glyph, origin, y, n);
            let prev = self.glyph_row_ops(glyph, origin, y, (n - 1) as nat);
            assert forall|x: u32| x < n && self.spec_glyph_bit(glyph, x, y) implies ops.contains(
                #[trigger] self.pixel_op(origin, x, y),
            ) by {
                if x < n - 1 {
                    let k = choose|k: int| 0 <= k < prev.len() && prev[k] == self.pixel_op(origin, x, y);
                    assert(ops[k] == prev[k]);
                } else {
                    assert(ops[prev.len() as int] == self.pixel_op(origin, x, y));
                }
            }
        }
    }

    proof fn lemma_rows_ops_cover_set_pixels(self, glyph: GlyphMetrics, origin: Point, m: nat)
        ensures
            forall|x: u32, y: u32|
                x < self.spec_rendered_glyph_box_w(glyph) && y < m && self.spec_glyph_bit(glyph, x, y)
                    ==> self.glyph_rows_ops(glyph, origin, m).contains(
                    #[trigger] self.pixel_op(origin, x, y),
                ),
        decreases m,
    {
        if m > 0 {
            let w = self.spec_rendered_glyph_box_w(glyph);
            let yl = (m - 1) as u32;
            self.lemma_rows_ops_cover_set_pixels(glyph, origin, (m - 1) as nat);
            self.lemma_row_ops_cover_set_pixels(glyph, origin, yl, w as nat);
            let ops = self.glyph_rows_ops(glyph, origin, m);
            let prev = self.glyph_rows_ops(glyph, origin, (m - 1) as nat);
            let row = self.glyph_row_ops(glyph, origin, yl, w as nat);
            assert forall|x: u32, y: u32|
                x < w && y < m && self.spec_glyph_bit(glyph, x, y) implies ops.contains(
                #[trigger] self.pixel_op(origin, x, y),
            ) by {
                if y < m - 1 {
                    let k = choose|k: int| 0 <= k < prev.len() && prev[k] == self.pixel_op(origin, x, y);
                    assert(ops[k] == prev[k]);
                } else {
                    let k = choose|k: int| 0 <= k < row.len() && row[k] == self.pixel_op(origin, x, y);
                    assert(ops[prev.len() + k] == row[k]);
                }
            }
        }
    }

    /// Glyph pixels land at the glyph origin plus their position in the
    /// rendered glyph: every operation drawing the first `m` rows of a glyph
    /// at `origin` sets, in the text color, the point `x` columns right of
    /// and `y` rows below `origin` for a set rendered pixel at column `x` and
    /// row `y`; and every set rendered pixel of those rows is drawn so.
    pub proof fn lemma_glyph_pixels_at_bitmap_positions(self, glyph: GlyphMetrics, origin: Point, m: nat)
        requires
            self.spec_rendered_glyph_box_w(glyph) <= 0x8000_0000int,
            m <= 0x8000_0000int,
            origin.x + self.spec_rendered_glyph_box_w(glyph) <= 0x8000_0000int,
            origin.y + m <= 0x8000_0000int,
        ensures
            forall|i: int|
                0 <= i < self.glyph_rows_ops(glyph, origin, m).len() ==> exists|x: u32, y: u32|
                    #![trigger self.spec_glyph_bit(glyph, x, y)]
                    x < self.spec_rendered_glyph_box_w(glyph) && y < m && self.spec_glyph_bit(glyph, x, y)
                        && (#[trigger] self.glyph_rows_ops(glyph, origin, m)[i] matches DrawOp::Pixel {
                        point,
                        color,
                    } && point.x - origin.x == x && point.y - origin.y == y && color == self.color()),
            forall|x: u32, y: u32|
                x < self.spec_rendered_glyph_box_w(glyph) && y < m && #[trigger] self.spec_glyph_bit(
                    glyph,
                    x,
                    y,
                ) ==> exists|i: int|
                    0 <= i < self.glyph_rows_ops(glyph, origin, m).len() && (#[trigger] self.glyph_rows_ops(
                        glyph,
                        origin,
                        m,
                    )[i] matches DrawOp::Pixel { point, color } && point.x - origin.x == x && point.y
                        - origin.y == y && color == self.color()),
    {
        let w = self.spec_rendered_glyph_box_w(glyph);
        let ops = self.glyph_rows_ops(glyph, origin, m);
        self.lemma_glyph_ops_are_glyph_pixels(glyph, origin, m);
        self.lemma_rows_ops_cover_set_pixels(glyph, origin, m);
        assert forall|i: int| 0 <= i < ops.len() implies exists|x: u32, y: u32|
            #![trigger self.spec_glyph_bit(glyph, x, y)]
            x < w && y < m && self.spec_glyph_bit(glyph, x, y) && (#[trigger] ops[i] matches DrawOp::Pixel {
                point,
                color,
            } && point.x - origin.x == x && point.y - origin.y == y && color == self.color()) by {
            assert(self.is_glyph_pixel(glyph, origin, m, ops[i]));
            let (x, y) = choose|x: u32, y: u32|
                x < w && y < m && self.spec_glyph_bit(glyph, x, y) && ops[i] == #[trigger] self.pixel_op(
                    origin,
                    x,
                    y,
                );
            assert(sat_i32(x) == x && sat_i32(y) == y);
            assert(self.spec_glyph_bit(glyph, x, y));
        }
        assert forall|x: u32, y: u32|
            x < w && y < m && #[trigger] self.spec_glyph_bit(glyph, x, y) implies exists|i: int|
            0 <= i < ops.len() && (#[trigger] ops[i] matches DrawOp::Pixel { point, color } && point.x
                - origin.x == x && point.y - origin.y == y && color == self.color()) by {
            assert(ops.contains(self.pixel_op(origin, x, y)));
            let i = choose|i: int| 0 <= i < ops.len() && ops[i] == self.pixel_op(origin, x, y);
            assert(sat_i32(x) == x && sat_i32(y) == y);
            assert(ops[i] == self.pixel_op(origin, x, y));
        }
    }

    /// The baseline's height above the bottom of the line is scaled to the
    /// logical height exactly as the native metrics are: with `L` the
    /// logical height and `N` the native size (one when zero), the result
    /// `B` is the baseline times `L / N` rounded half up, that is
    /// `B * N <= baseline * L + N / 2 < (B + 1) * N`, when that fits 32 bits.
    pub proof fn lemma_baseline_from_bottom_scales_with_height(self)
        requires
            ({
                let n = if self.font().vertical_metrics.native_size == 0 {
                    1int
                } else {
                    self.font().vertical_metrics.native_size as int
                };
                self.font().vertical_metrics.baseline * self.spec_logical_height() + n / 2
                    < 0x1_0000_0000int * n
            }),
        ensures
            ({
                let n = if self.font().vertical_metrics.native_size == 0 {
                    1int
                } else {
                    self.font().vertical_metrics.native_size as int
                };
                let b = self.spec_baseline_from_bottom() as int;
                let t = self.font().vertical_metrics.baseline * self.spec_logical_height() + n / 2;
                b * n <= t < (b + 1) * n
            }),
    {
        let n: int = if self.font().vertical_metrics.native_size == 0 {
            1int
        } else {
            self.font().vertical_metrics.native_size as int
        };
        let t: int = self.font().vertical_metrics.baseline * self.spec_logical_height() + n / 2;
        assert(0 <= self.font().vertical_metrics.baseline * self.spec_logical_height()) by (nonlinear_arith);
        assert(t / n < 0x1_0000_0000int && 0 <= t / n) by (nonlinear_arith)
            requires
                0 <= t < 0x1_0000_0000int * n,
                n > 0,
        ;
        assert((t / n) * n <= t < (t / n + 1) * n) by (nonlinear_arith)
            requires
                0 <= t,
                n > 0,
        ;
        assert(self.spec_baseline_from_bottom() as int == t / n);
    }

    /// At a whole ratio `k / 1` on a font whose full width is its native
    /// size, the baseline's height above the bottom is the native baseline
    /// times `k`.
    pub proof fn lemma_baseline_from_bottom_whole_ratio(self)
        requires
            self.denominator() == 1,
            self.numerator() > 0,
            self.font().layout.full_width == self.font().vertical_metrics.native_size,
            self.font().layout.full_width > 0,
            self.font().layout.full_width * self.numerator() <= u32::MAX,
            self.font().vertical_metrics.baseline * self.numerator() <= u32::MAX,
        ensures
            self.spec_baseline_from_bottom() == self.font().vertical_metrics.baseline
                * self.numerator(),
    {
        let f = self.font().layout.full_width as int;
        let k = self.numerator() as int;
        let b = self.font().vertical_metrics.baseline as int;
        assert((f * k + 0) / 1 == f * k);
        assert(f * k >= 1) by (nonlinear_arith)
            requires
                f >= 1,
                k >= 1,
        ;
        assert(self.spec_logical_height() == f * k);
        let t = b * (f * k) + f / 2;
        assert(t == (b * k) * f + f / 2) by (nonlinear_arith)
            requires
                t == b * (f * k) + f / 2,
        ;
        assert(t / f == b * k) by (nonlinear_arith)
            requires
                t == (b * k) * f + f / 2,
                f >= 1,
                0 <= f / 2 < f,
                b * k >= 0,
        {
            vstd::arithmetic::div_mod::lemma_fundamental_div_mod_converse(t, f, b * k, f / 2);
        }
    }

    /// A non-zero native vertical metric is scaled to the logical height
    /// like the baseline, rounded half up, but never to zero: with `L` the
    /// logical height and `N` the native size (one when zero), the result
    /// `R` of a metric `v > 0` is at least one, and either
    /// `R * N <= v * L + N / 2 < (R + 1) * N` or that rounding gives zero and
    /// `R` is one; a zero metric stays zero.
    pub proof fn lemma_vertical_metric_scales_with_height(self, value: u32)
        requires
            ({
                let n = if self.font().vertical_metrics.native_size == 0 {
                    1int
                } else {
                    self.font().vertical_metrics.native_size as int
                };
                value * self.spec_logical_height() + n / 2 < 0x1_0000_0000int * n
            }),
        ensures
            ({
                let n = if self.font().vertical_metrics.native_size == 0 {
                    1int
                } else {
                    self.font().vertical_metrics.native_size as int
                };
                let r = self.spec_scaled_vertical_metric(value) as int;
                let t = value * self.spec_logical_height() + n / 2;
                &&& value == 0 ==> r == 0
                &&& value > 0 ==> r >= 1 && ((r * n <= t < (r + 1) * n) || (t < n && r == 1))
            }),
    {
        let n: int = if self.font().vertical_metrics.native_size == 0 {
            1int
        } else {
            self.font().vertical_metrics.native_size as int
        };
        let t: int = value * self.spec_logical_height() + n / 2;
        assert(0 <= value * self.spec_logical_height()) by (nonlinear_arith);
        assert(t / n < 0x1_0000_0000int && 0 <= t / n) by (nonlinear_arith)
            requires
                0 <= t < 0x1_0000_0000int * n,
                n > 0,
        ;
        assert((t / n) * n <= t < (t / n + 1) * n) by (nonlinear_arith)
            requires
                0 <= t,
                n > 0,
        ;
        assert(spec_scale_u32(value, self.spec_logical_height(), spec_non_zero_or_one(self.font().vertical_metrics.native_size)) as int == t / n);
        if t / n == 0 {
            assert(t < n) by (nonlinear_arith)
                requires
                    t < (t / n + 1) * n,
                    t / n == 0,
            ;
        }
    }

    /// A glyph sits on the alphabetic baseline raised by its vertical
    /// offset: the bottom of its rendered box is `ofs_y` rows above the
    /// baseline, when the glyph is no taller than the distance from the top
    /// of the line to the baseline.
    pub proof fn lemma_glyph_sits_on_baseline(self, c: char, cell_origin: Point, glyph: GlyphMetrics)
        requires
            self.glyph_origin_fits(c, cell_origin, glyph),
            self.spec_rendered_glyph_box_h(glyph) <= self.spec_alphabetic_offset() <= i32::MAX,
            fits_i32(
                self.spec_alphabetic_offset() - self.spec_rendered_glyph_box_h(glyph)
                    - self.spec_rendered_glyph_ofs_y(glyph),
            ),
        ensures
            ({
                let origin = self.spec_glyph_origin(c, cell_origin, glyph);
                (origin.y + self.spec_rendered_glyph_box_h(glyph)) - cell_origin.y
                    == self.spec_alphabetic_offset() - self.spec_rendered_glyph_ofs_y(glyph)
            }),
    {
    }

    /// A glyph is centred on its rendered width in its cell: its left and
    /// right margins differ by at most one pixel.
    pub proof fn lemma_glyph_centred_in_cell(self, c: char, cell_origin: Point, glyph: GlyphMetrics)
        requires
            self.glyph_origin_fits(c, cell_origin, glyph),
            self.spec_character_width(c) <= i32::MAX,
            self.spec_rendered_glyph_box_w(glyph) <= i32::MAX,
        ensures
            ({
                let origin = self.spec_glyph_origin(c, cell_origin, glyph);
                let left = origin.x - cell_origin.x;
                let right = (cell_origin.x + self.spec_character_width(c)) - (origin.x
                    + self.spec_rendered_glyph_box_w(glyph));
                -1 <= left - right <= 1
            }),
    {
    }

    /// Drawing a sequence within machine arithmetic draws each of its
    /// prefixes within machine arithmetic.
    pub proof fn lemma_string_fits_prefix(self, chars: Seq<char>, top_left: Point, k: int)
        requires
            0 <= k <= chars.len(),
            self.string_fits(chars, top_left),
        ensures
            self.string_fits(chars.take(k), top_left),
        decreases chars.len(),
    {
        if k == chars.len() {
            assert(chars.take(k) =~= chars);
        } else {
            assert(chars.drop_last().take(k) =~= chars.take(k));
            self.lemma_string_fits_prefix(chars.drop_last(), top_left, k);
        }
    }
}

/// A change a setter makes to a style after it was built.
pub enum StyleChange<C> {
    /// `set_text_color`: a color, or `None` for transparent text.
    TextColor(Option<C>),
    /// `set_background_color`.
    BackgroundColor(Option<C>),
    /// `with_scale_ratio`: numerator and denominator.
    ScaleRatio(u32, u32),
}

/// The ratio left by `changes` made in order to a style whose ratio was
/// `initial`: that of the last `ScaleRatio` change, else `initial`.
pub open spec fn last_ratio<C>(changes: Seq<StyleChange<C>>, initial: (u32, u32)) -> (u32, u32)
    decreases changes.len(),
{
    if changes.len() == 0 {
        initial
    } else {
        match changes.last() {
            StyleChange::ScaleRatio(n, d) => (n, d),
            _ => last_ratio(changes.drop_last(), initial),
        }
    }
}

impl<'a, C> EgTextStyle<'a, C> {
    /// The style after `change`.
    pub closed spec fn changed(self, change: StyleChange<C>) -> Self {
        match change {
            StyleChange::TextColor(Some(color)) => EgTextStyle {
                text_color: color,
                text_transparent: false,
                ..self
            },
            StyleChange::TextColor(None) => EgTextStyle { text_transparent: true, ..self },
            StyleChange::BackgroundColor(background) => EgTextStyle {
                background_color: background,
                ..self
            },
            StyleChange::ScaleRatio(n, d) => EgTextStyle {
                scale_numerator: n,
                scale_denominator: d,
                ..self
            },
        }
    }

    /// The style after `changes`, made in order.
    pub open spec fn changed_by(self, changes: Seq<StyleChange<C>>) -> Self
        decreases changes.len(),
    {
        if changes.len() == 0 {
            self
        } else {
            self.changed_by(changes.drop_last()).changed(changes.last())
        }
    }

    /// The scale ratio after any sequence of setter calls is the one the
    /// last `with_scale_ratio` set, or the ratio the style had before when
    /// none did (one to one for a newly built style); colors never change it.
    pub proof fn lemma_scale_ratio_after_changes(self, changes: Seq<StyleChange<C>>)
        ensures
            (self.changed_by(changes).numerator(), self.changed_by(changes).denominator())
                == last_ratio(changes, (self.numerator(), self.denominator())),
        decreases changes.len(),
    {
        if changes.len() > 0 {
            self.lemma_scale_ratio_after_changes(changes.drop_last());
        }
    }
}

proof fn lemma_sample_product_bound(d: u32, len: u32)
    ensures
        0 <= (2 * d + 1) * len <= 0x2_0000_0000int * 0x1_0000_0000int,
{
    assert(0 <= (2 * d + 1) * len <= 0x2_0000_0000int * 0x1_0000_0000int) by (nonlinear_arith)
        requires
            d < 0x1_0000_0000int,
            len < 0x1_0000_0000int,
    ;
}

impl<'a, C: Copy> EgTextStyle<'a, C> {
    /// Creates a text style with a transparent background.
    pub fn new(preset: &'a FontPreset<'a>, text_color: C) -> (s: Self)
        ensures
            s.style_preset() == preset,
            s.font() == *preset.font,
            s.color() == text_color,
            s.background() is None,
            !s.transparent(),
            s.numerator() == 1,
            s.denominator() == 1,
            s.wf(),
    {
        EgTextStyle {
            preset,
            text_color,
            background_color: None,
            text_transparent: false,
            scale_numerator: 1,
            scale_denominator: 1,
        }
    }

    /// Creates a text style with an explicit background color.
    pub fn with_background(preset: &'a FontPreset<'a>, text_color: C, background_color: C) -> (s:
        Self)
        ensures
            s.style_preset() == preset,
            s.font() == *preset.font,
            s.color() == text_color,
            s.background() == Some(background_color),
            !s.transparent(),
            s.numerator() == 1,
            s.denominator() == 1,
            s.wf(),
    {
        EgTextStyle {
            preset,
            text_color,
            background_color: Some(background_color),
            text_transparent: false,
            scale_numerator: 1,
            scale_denominator: 1,
        }
    }

    /// Returns the effective font data used by this style.
    pub fn font_data(&self) -> (f: &FontData<'a>)
        ensures
            *f == self.font(),
    {
        self.preset.font
    }

    /// Sets the proportional scaling ratio for this style. Both parts of the
    /// ratio must be non-zero.
    pub fn with_scale_ratio(self, numerator: u32, denominator: u32) -> (s: Self)
        requires
            numerator != 0,
            denominator != 0,
        ensures
            s.style_preset() == self.style_preset(),
            s.font() == self.font(),
            s.color() == self.color(),
            s.background() == self.background(),
            s.transparent() == self.transparent(),
            s.numerator() == numerator,
            s.denominator() == denominator,
            s.wf(),
            s == self.changed(StyleChange::ScaleRatio(numerator, denominator)),
    {
        let mut s = self;
        s.scale_numerator = numerator;
        s.scale_denominator = denominator;
        s
    }

    /// Returns the proportional scaling ratio used by this style.
    pub fn scale_ratio(&self) -> (r: (u32, u32))
        ensures
            r == (self.numerator(), self.denominator()),
    {
        (self.scale_numerator, self.scale_denominator)
    }

    /// Returns whether proportional scaling is active for this style.
    pub fn is_scaled(&self) -> (r: bool)
        ensures
            r == self.spec_is_scaled(),
    {
        self.scale_numerator != 1 || self.scale_denominator != 1
    }

    /// Sets the text color, or makes the text transparent for `None`.
    pub fn set_text_color(&mut self, text_color: Option<C>)
        ensures
            final(self).style_preset() == old(self).style_preset(),
            final(self).font() == old(self).font(),
            final(self).background() == old(self).background(),
            final(self).numerator() == old(self).numerator(),
            final(self).denominator() == old(self).denominator(),
            match text_color {
                Some(color) => final(self).color() == color && !final(self).transparent(),
                None => final(self).color() == old(self).color() && final(self).transparent(),
            },
            *final(self) == old(self).changed(StyleChange::TextColor(text_color)),
    {
        match text_color {
            Some(color) => {
                self.text_color = color;
                self.text_transparent = false;
            },
            None => {
                self.text_transparent = true;
            },
        }
    }

    /// Sets the background color; `None` removes the background, so cells
    /// are no longer filled.
    pub fn set_background_color(&mut self, background_color: Option<C>)
        ensures
            final(self).style_preset() == old(self).style_preset(),
            final(self).font() == old(self).font(),
            final(self).color() == old(self).color(),
            final(self).background() == background_color,
            final(self).transparent() == old(self).transparent(),
            final(self).numerator() == old(self).numerator(),
            final(self).denominator() == old(self).denominator(),
            *final(self) == old(self).changed(StyleChange::BackgroundColor(background_color)),
    {
        self.background_color = background_color;
    }

    /// Horizontal advance of `character`.
    pub fn character_width(&self, character: char) -> (w: u32)
        requires
            self.wf(),
        ensures
            w == self.spec_character_width(character),
    {
        let base = if char_is_ascii(character) {
            self.preset.ascii_width()
        } else {
            self.preset.non_ascii_width()
        };
        scale_ratio_nonzero(base, self.scale_numerator, self.scale_denominator)
    }

    /// Logical line height before vertical metrics are applied.
    pub fn logical_height(&self) -> (h: u32)
        requires
            self.wf(),
        ensures
            h == self.spec_logical_height(),
    {
        scale_ratio_nonzero(self.preset.height(), self.scale_numerator, self.scale_denominator)
    }

    /// Width of `glyph` as rendered.
    pub fn rendered_glyph_box_w(&self, glyph: &GlyphMetrics) -> (w: u32)
        requires
            self.wf(),
        ensures
            w == self.spec_rendered_glyph_box_w(*glyph),
    {
        if self.is_scaled() {
            scale_ratio_nonzero(glyph.box_w, self.scale_numerator, self.scale_denominator)
        } else {
            glyph.box_w
        }
    }

    /// Height of `glyph` as rendered.
    pub fn rendered_glyph_box_h(&self, glyph: &GlyphMetrics) -> (h: u32)
        requires
            self.wf(),
        ensures
            h == self.spec_rendered_glyph_box_h(*glyph),
    {
        if self.is_scaled() {
            scale_ratio_nonzero(glyph.box_h, self.scale_numerator, self.scale_denominator)
        } else {
            glyph.box_h
        }
    }

    /// Vertical offset of `glyph` as rendered.
    pub fn rendered_glyph_ofs_y(&self, glyph: &GlyphMetrics) -> (o: i32)
        requires
            self.wf(),
            self.glyph_ofs_y_fits(*glyph),
        ensures
            o == self.spec_rendered_glyph_ofs_y(*glyph),
    {
        if self.is_scaled() {
            scale_i32_ratio(glyph.ofs_y, self.scale_numerator, self.scale_denominator)
        } else {
            glyph.ofs_y
        }
    }

    /// A native vertical metric scaled to the logical height.
    pub fn scaled_vertical_metric(&self, value: u32) -> (r: u32)
        requires
            self.wf(),
        ensures
            r == self.spec_scaled_vertical_metric(value),
            value > 0 ==> r >= 1,
    {
        let native = non_zero_or_one(self.font_data().vertical_metrics.native_size);
        let scaled = scale_u32(value, self.logical_height(), native);
        if value > 0 {
            if scaled < 1 {
                1
            } else {
                scaled
            }
        } else {
            0
        }
    }

    /// Line height scaled to the logical height.
    pub fn scaled_line_height(&self) -> (r: u32)
        requires
            self.wf(),
        ensures
            r == self.spec_line_height(),
    {
        self.scaled_vertical_metric(self.font_data().vertical_metrics.line_height)
    }

    /// Height of the line used for layout and backgrounds.
    pub fn line_height(&self) -> (r: u32)
        requires
            self.wf(),
        ensures
            r == self.spec_line_height(),
    {
        self.scaled_line_height()
    }

    /// Baseline distance from the bottom, scaled to the logical height.
    pub fn scaled_baseline_from_bottom(&self) -> (r: u32)
        requires
            self.wf(),
        ensures
            r == self.spec_baseline_from_bottom(),
    {
        scale_u32(
            self.font_data().vertical_metrics.baseline,
            self.logical_height(),
            non_zero_or_one(self.font_data().vertical_metrics.native_size),
        )
    }

    /// Distance from the top of the line to the alphabetic baseline.
    pub fn scaled_alphabetic_baseline_offset(&self) -> (r: u32)
        requires
            self.wf(),
        ensures
            r == self.spec_alphabetic_offset(),
    {
        self.scaled_line_height().saturating_sub(self.scaled_baseline_from_bottom())
    }

    /// Distance from the top of the line to `baseline`.
    pub fn baseline_offset(&self, baseline: Baseline) -> (r: i32)
        requires
            self.wf(),
        ensures
            r == self.spec_baseline_offset(baseline),
            r >= 0,
    {
        let line_height = self.scaled_line_height();
        u32_to_i32_sat(
            match baseline {
                Baseline::Top => 0,
                Baseline::Bottom => line_height.saturating_sub(1),
                Baseline::Middle => line_height.saturating_sub(1) / 2,
                Baseline::Alphabetic => self.scaled_alphabetic_baseline_offset(),
            },
        )
    }

    /// Horizontal offset that centres `glyph` in the cell of `character`, or
    /// `None` when the difference of the widths overflows `i32`.
    pub fn glyph_x_offset(&self, character: char, glyph: &GlyphMetrics) -> (r: Option<i32>)
        requires
            self.wf(),
        ensures
            r is Some <==> fits_i32(self.glyph_width_slack(character, *glyph)),
            r matches Some(o) ==> o == self.spec_glyph_x_offset(character, *glyph),
    {
        let cell_width = self.character_width(character);
        let glyph_width = self.rendered_glyph_box_w(glyph);
        let cw: i64 = if cell_width > i32::MAX as u32 {
            cell_width as i64 - 0x1_0000_0000i64
        } else {
            cell_width as i64
        };
        let gw: i64 = if glyph_width > i32::MAX as u32 {
            glyph_width as i64 - 0x1_0000_0000i64
        } else {
            glyph_width as i64
        };
        let d: i64 = cw - gw;
        if d < i32::MIN as i64 || d > i32::MAX as i64 {
            return None;
        }
        let half: i64 = if d >= 0 {
            d / 2
        } else {
            -((-d) / 2)
        };
        Some(half as i32)
    }

    /// Top-left corner of `glyph` drawn in the cell at `cell_origin`, or
    /// `None` when its placement leaves `i32` arithmetic.
    pub fn glyph_origin(&self, character: char, cell_origin: Point, glyph: &GlyphMetrics) -> (r:
        Option<Point>)
        requires
            self.wf(),
        ensures
            r is Some <==> self.glyph_origin_fits(character, cell_origin, *glyph),
            r matches Some(p) ==> p == self.spec_glyph_origin(character, cell_origin, *glyph),
    {
        if self.is_scaled() && glyph.ofs_y == i32::MIN {
            return None;
        }
        let y = self.scaled_alphabetic_baseline_offset().saturating_sub(
            self.rendered_glyph_box_h(glyph),
        );
        let dy64: i64 = u32_to_i32_sat(y) as i64 - self.rendered_glyph_ofs_y(glyph) as i64;
        let dy: i32 = if dy64 > i32::MAX as i64 {
            i32::MAX
        } else if dy64 < i32::MIN as i64 {
            i32::MIN
        } else {
            dy64 as i32
        };
        match self.glyph_x_offset(character, glyph) {
            None => None,
            Some(dx) => checked_translate(cell_origin, dx, dy),
        }
    }

    /// Whether sampling rendered glyph pixel `(x, y)` stays within `i64`.
    pub fn glyph_sample_fits(&self, glyph: &GlyphMetrics, x: u32, y: u32) -> (r: bool)
        requires
            self.wf(),
        ensures
            r == self.glyph_bit_fits(*glyph, x, y),
    {
        if !self.is_scaled() {
            return true;
        }
        let dst_w = scale_ratio_nonzero(glyph.box_w, self.scale_numerator, self.scale_denominator);
        let dst_h = scale_ratio_nonzero(glyph.box_h, self.scale_numerator, self.scale_denominator);
        if !(x < dst_w && y < dst_h) {
            return true;
        }
        proof {
            lemma_sample_product_bound(x, glyph.box_w);
            lemma_sample_product_bound(y, glyph.box_h);
        }
        let fx = glyph.box_w <= 1 || ((2 * x as u128 + 1) * glyph.box_w as u128 * 256
            <= i64::MAX as u128);
        let fy = glyph.box_h <= 1 || ((2 * y as u128 + 1) * glyph.box_h as u128 * 256
            <= i64::MAX as u128);
        fx && fy
    }

    /// Rendered pixel `(x, y)` of `glyph`.
    pub fn glyph_bit(&self, glyph: &GlyphMetrics, x: u32, y: u32) -> (r: bool)
        requires
            self.wf(),
            self.glyph_bit_fits(*glyph, x, y),
        ensures
            r == self.spec_glyph_bit(*glyph, x, y),
    {
        if self.is_scaled() {
            interpolated_glyph_bit_for_ratio(
                self.font_data(),
                glyph,
                self.scale_numerator,
                self.scale_denominator,
                x,
                y,
            )
        } else {
            glyph_bitmap_bit(self.font_data(), glyph, x, y)
        }
    }

    /// Appends the background fill of a cell `width` pixels wide at `origin`.
    pub fn draw_background(&self, width: u32, origin: Point, ops: &mut Vec<DrawOp<C>>)
        requires
            self.wf(),
        ensures
            final(ops)@ == old(ops)@ + self.background_ops(width, origin),
    {
        if width == 0 {
            assert(old(ops)@ + Seq::<DrawOp<C>>::empty() =~= old(ops)@);
            return;
        }
        match self.background_color {
            Some(color) => {
                let area = Rectangle::new(origin, Size::new(width, self.scaled_line_height()));
                ops.push(DrawOp::Fill { area, color });
                assert(final(ops)@ =~= old(ops)@ + self.background_ops(width, origin));
            },
            None => {
                assert(old(ops)@ + Seq::<DrawOp<C>>::empty() =~= old(ops)@);
            },
        }
    }

    /// Appends the operations that draw `glyph` for `character` in the cell
    /// at `cell_origin`; `false` when drawing it leaves machine arithmetic.
    pub fn draw_glyph(
        &self,
        character: char,
        glyph: &GlyphMetrics,
        cell_origin: Point,
        ops: &mut Vec<DrawOp<C>>,
    ) -> (ok: bool)
        requires
            self.wf(),
        ensures
            ok == self.glyph_fits(character, cell_origin, *glyph),
            ok ==> final(ops)@ == old(ops)@ + self.glyph_ops(character, cell_origin, *glyph),
    {
        if self.text_transparent {
            assert(old(ops)@ + Seq::<DrawOp<C>>::empty() =~= old(ops)@);
            return true;
        }
        let color = self.text_color;
        let origin = match self.glyph_origin(character, cell_origin, glyph) {
            None => return false,
            Some(origin) => origin,
        };
        let glyph_w = self.rendered_glyph_box_w(glyph);
        let glyph_h = self.rendered_glyph_box_h(glyph);
        let ghost start = old(ops)@;
        let ghost g = *glyph;
        assert(start + self.glyph_rows_ops(g, origin, 0) =~= start);
        let mut y: u32 = 0;
        while y < glyph_h
            invariant
                self.wf(),
                !self.transparent(),
                g == *glyph,
                color == self.color(),
                origin == self.spec_glyph_origin(character, cell_origin, g),
                self.glyph_origin_fits(character, cell_origin, g),
                glyph_w == self.spec_rendered_glyph_box_w(g),
                glyph_h == self.spec_rendered_glyph_box_h(g),
                y <= glyph_h,
                ops@ == start + self.glyph_rows_ops(g, origin, y as nat),
                forall|xx: u32, yy: u32|
                    xx < glyph_w && yy < y ==> #[trigger] self.pixel_fits(g, origin, xx, yy),
            decreases glyph_h - y,
        {
            let mut x: u32 = 0;
            let ghost row_start = ops@;
            assert(row_start + self.glyph_row_ops(g, origin, y, 0) =~= row_start);
            while x < glyph_w
                invariant
                    self.wf(),
                    !self.transparent(),
                    g == *glyph,
                    color == self.color(),
                    origin == self.spec_glyph_origin(character, cell_origin, g),
                    glyph_h == self.spec_rendered_glyph_box_h(g),
                    glyph_w == self.spec_rendered_glyph_box_w(g),
                    x <= glyph_w,
                    y < glyph_h,
                    row_start == start + self.glyph_rows_ops(g, origin, y as nat),
                    ops@ == row_start + self.glyph_row_ops(g, origin, y, x as nat),
                    forall|xx: u32, yy: u32|
                        (xx < glyph_w && yy < y) || (xx < x && yy == y) ==> #[trigger] self.pixel_fits(
                            g,
                            origin,
                            xx,
                            yy,
                        ),
                decreases glyph_w - x,
            {
                if !self.glyph_sample_fits(glyph, x, y) {
                    assert(!self.pixel_fits(g, origin, x, y));
                    return false;
                }
                let ghost before = ops@;
                if self.glyph_bit(glyph, x, y) {
                    match checked_translate(origin, u32_to_i32_sat(x), u32_to_i32_sat(y)) {
                        None => {
                            assert(!self.pixel_fits(g, origin, x, y));
                            return false;
                        },
                        Some(point) => {
                            ops.push(DrawOp::Pixel { point, color });
                            assert(self.glyph_row_ops(g, origin, y, (x + 1) as nat) =~= self.glyph_row_ops(
                                g,
                                origin,
                                y,
                                x as nat,
                            ).push(self.pixel_op(origin, x, y)));
                            assert(ops@ =~= row_start + self.glyph_row_ops(g, origin, y, (x + 1) as nat));
                        },
                    }
                } else {
                    assert(self.glyph_row_ops(g, origin, y, (x + 1) as nat) =~= self.glyph_row_ops(
                        g,
                        origin,
                        y,
                        x as nat,
                    ));
                }
                x += 1;
            }
            assert(ops@ =~= start + self.glyph_rows_ops(g, origin, (y + 1) as nat));
            y += 1;
        }
        true
    }

    /// The operations that draw `text` anchored at `position` by `baseline`
    /// and the position after it, or `None` when drawing it leaves machine
    /// arithmetic. Every character advances by its category width; glyphs
    /// missing from the font are not drawn.
    pub fn draw_string(&self, text: &str, position: Point, baseline: Baseline) -> (r: Option<
        Drawing<C>,
    >)
        requires
            self.wf(),
        ensures
            r is Some <==> self.draw_string_fits(text@, position, baseline),
            r matches Some(d) ==> {
                &&& d.ops@ == self.string_ops(text@, self.line_top_left(position, baseline))
                &&& d.next_position == self.advanced(position, self.spec_advance(text@))
            },
    {
        let offset = self.baseline_offset(baseline);
        let top_left = match checked_translate(position, 0, -offset) {
            None => return None,
            Some(p) => p,
        };
        let mut ops: Vec<DrawOp<C>> = Vec::new();
        let mut cursor_x: u32 = 0;
        assert(text@.take(0) =~= Seq::<char>::empty());
        for character in it: text.chars()
            invariant
                self.wf(),
                it.seq() == text@,
                top_left == self.line_top_left(position, baseline),
                self.line_top_left_fits(position, baseline),
                cursor_x == self.spec_advance(text@.take(it.index())),
                ops@ == self.string_ops(text@.take(it.index()), top_left),
                self.string_fits(text@.take(it.index()), top_left),
        {
            let ghost i = it.index();
            let ghost prefix = text@.take(i + 1);
            assert(prefix.drop_last() =~= text@.take(i));
            assert(prefix.last() == character);
            let width = self.character_width(character);
            let cell_origin = match checked_translate(top_left, u32_to_i32_sat(cursor_x), 0) {
                None => {
                    proof {
                        if self.string_fits(text@, top_left) {
                            self.lemma_string_fits_prefix(text@, top_left, i + 1);
                        }
                    }
                    return None;
                },
                Some(p) => p,
            };
            let ghost before = ops@;
            self.draw_background(width, cell_origin, &mut ops);
            match self.font_data().glyph_for_char(character) {
                Some(glyph) => {
                    if !self.draw_glyph(character, glyph, cell_origin, &mut ops) {
                        proof {
                            if self.string_fits(text@, top_left) {
                                self.lemma_string_fits_prefix(text@, top_left, i + 1);
                            }
                        }
                        return None;
                    }
                    assert(ops@ =~= before + self.char_ops(character, cell_origin));
                },
                None => {
                    assert(ops@ =~= before + self.char_ops(character, cell_origin));
                },
            }
            cursor_x = cursor_x.saturating_add(width);
        }
        assert(text@.take(text@.len() as int) =~= text@);
        let next_position = match checked_translate(position, u32_to_i32_sat(cursor_x), 0) {
            None => return None,
            Some(p) => p,
        };
        Some(Drawing { ops, next_position })
    }

    /// The operations that fill a `width` pixel gap anchored at `position`
    /// and the position after it, or `None` when that leaves machine
    /// arithmetic.
    pub fn draw_whitespace(&self, width: u32, position: Point, baseline: Baseline) -> (r: Option<
        Drawing<C>,
    >)
        requires
            self.wf(),
        ensures
            r is Some <==> self.whitespace_fits(width, position, baseline),
            r matches Some(d) ==> {
                &&& d.ops@ == self.background_ops(width, self.line_top_left(position, baseline))
                &&& d.next_position == self.advanced(position, width)
            },
    {
        let offset = self.baseline_offset(baseline);
        let top_left = match checked_translate(position, 0, -offset) {
            None => return None,
            Some(p) => p,
        };
        let mut ops: Vec<DrawOp<C>> = Vec::new();
        self.draw_background(width, top_left, &mut ops);
        assert(ops@ =~= self.background_ops(width, top_left));
        let next_position = match checked_translate(position, u32_to_i32_sat(width), 0) {
            None => return None,
            Some(p) => p,
        };
        Some(Drawing { ops, next_position })
    }

    /// The bounding box and advanced position of `text` anchored at
    /// `position`, or `None` when they leave `i32` coordinates.
    pub fn measure_string(&self, text: &str, position: Point, baseline: Baseline) -> (r: Option<
        TextMetrics,
    >)
        requires
            self.wf(),
        ensures
            r is Some <==> self.measure_fits(text@, position, baseline),
            r matches Some(m) ==> m == self.spec_measure(text@, position, baseline),
    {
        let mut width: u32 = 0;
        assert(text@.take(0) =~= Seq::<char>::empty());
        for character in it: text.chars()
            invariant
                self.wf(),
                it.seq() == text@,
                width == self.spec_advance(text@.take(it.index())),
        {
            let ghost i = it.index();
            assert(text@.take(i + 1).drop_last() =~= text@.take(i));
            width = width.saturating_add(self.character_width(character));
        }
        assert(text@.take(text@.len() as int) =~= text@);
        let line_height = self.scaled_line_height();
        let offset = self.baseline_offset(baseline);
        let top_left = match checked_translate(position, 0, -offset) {
            None => return None,
            Some(p) => p,
        };
        let next_position = match checked_translate(position, u32_to_i32_sat(width), 0) {
            None => return None,
            Some(p) => p,
        };
        Some(
            TextMetrics {
                bounding_box: Rectangle::new(top_left, Size::new(width, line_height)),
                next_position,
            },
        )
    }

}

} // verus!
