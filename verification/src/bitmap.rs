//! Reading glyph pixels out of the packed 1bpp bitmap, at native size and
//! resampled by a ratio with bilinear interpolation.
use vstd::prelude::*;

use crate::font::{FontData, GlyphMetrics};
use crate::scale::{lemma_scale_by_one, scale_ratio_nonzero, spec_scale_ratio_nonzero};
use vstd::arithmetic::div_mod::{lemma_div_multiples_vanish, lemma_mod_multiples_basic};

verus! {

/// Bit `k` of `byte`, counting from the most significant bit (`k == 0`).
pub open spec fn msb_bit(byte: u8, k: int) -> bool {
    (byte >> ((7 - k) as u8)) & 1u8 != 0
}

/// The pixel at `(x, y)` of a glyph: glyph rows are packed one after the
/// other without padding, starting at byte `glyph.bitmap_index`, most
/// significant bit first. Pixels outside the glyph box, or whose byte lies
/// past the end of the bitmap, are clear.
pub open spec fn spec_glyph_bitmap_bit(bitmap: Seq<u8>, glyph: GlyphMetrics, x: u32, y: u32) -> bool {
    if x >= glyph.box_w || y >= glyph.box_h {
        false
    } else {
        let bit_index = y * glyph.box_w + x;
        let byte_index = glyph.bitmap_index + bit_index / 8;
        if byte_index < bitmap.len() {
            msb_bit(bitmap[byte_index], bit_index % 8)
        } else {
            false
        }
    }
}

/// Reads the pixel at `(x, y)` of `glyph` from the font bitmap.
pub fn glyph_bitmap_bit(font: &FontData<'_>, glyph: &GlyphMetrics, x: u32, y: u32) -> (r: bool)
    ensures
        r == spec_glyph_bitmap_bit(font.bitmap@, *glyph, x, y),
{
    if x >= glyph.box_w || y >= glyph.box_h {
        return false;
    }
    proof {
        assert((y as int) * (glyph.box_w as int) + (x as int) < 0xffff_ffffint * 0xffff_ffffint) by (nonlinear_arith)
            requires
                y < glyph.box_h,
                x < glyph.box_w,
                glyph.box_h <= 0xffff_ffffint,
                glyph.box_w <= 0xffff_ffffint,
        {
            assert((y as int) * (glyph.box_w as int) <= 0xffff_fffeint * (glyph.box_w as int));
        }
    }
    let bit_index: u64 = y as u64 * glyph.box_w as u64 + x as u64;
    let byte_index: u64 = glyph.bitmap_index as u64 + bit_index / 8;
    if byte_index >= font.bitmap.len() as u64 {
        return false;
    }
    let byte = font.bitmap[byte_index as usize];
    let shift: u8 = (7 - (bit_index % 8)) as u8;
    (byte >> shift) & 1 != 0
}

/// Whether the fixed-point source position of destination coordinate
/// `dst` stays within `i64`.
pub open spec fn source_coordinate_fits(dst: u32, src_len: u32, dst_len: u32) -> bool {
    src_len <= 1 || dst_len == 0 || (2 * dst + 1) * src_len * 256 <= i64::MAX
}

/// `value` clamped to `[low, high]`.
pub open spec fn clamp_int(value: int, low: int, high: int) -> int {
    if value < low {
        low
    } else if value > high {
        high
    } else {
        value
    }
}

/// The source position, in 1/256 steps, sampled for destination coordinate
/// `dst` when a line of `src_len` pixels is stretched to `dst_len` pixels:
/// the destination pixel centre is mapped back to the source and clamped to
/// the source line. Returned as whole pixel and fraction.
pub open spec fn spec_scaled_source_coordinate(dst: u32, src_len: u32, dst_len: u32) -> (u32, u32) {
    if src_len <= 1 || dst_len == 0 {
        (0, 0)
    } else {
        let max_fp = (src_len - 1) * 256;
        let pos_fp = ((2 * dst + 1) * src_len * 256) / (dst_len * 2) - 128;
        let clamped = clamp_int(pos_fp, 0, max_fp);
        ((clamped / 256) as u32, (clamped % 256) as u32)
    }
}

proof fn lemma_source_product_bounds(dst: u32, src_len: u32)
    requires
        (2 * dst + 1) * src_len * 256 <= i64::MAX,
    ensures
        0 <= (2 * dst + 1) * src_len <= (2 * dst + 1) * src_len * 256,
{
    assert(0 <= (2 * dst + 1) * src_len) by (nonlinear_arith);
}

/// Maps destination coordinate `dst` back to the source line; see
/// [`spec_scaled_source_coordinate`].
pub fn scaled_source_coordinate(dst: u32, src_len: u32, dst_len: u32) -> (r: (u32, u32))
    requires
        source_coordinate_fits(dst, src_len, dst_len),
    ensures
        r == spec_scaled_source_coordinate(dst, src_len, dst_len),
        src_len > 1 && dst_len != 0 ==> r.0 < src_len,
        r.1 < 256,
{
    if src_len <= 1 || dst_len == 0 {
        return (0, 0);
    }
    proof {
        lemma_source_product_bounds(dst, src_len);
    }
    let max_fp: i64 = (src_len - 1) as i64 * 256;
    let pos_fp: i64 = ((((dst as i64) * 2 + 1) * src_len as i64 * 256) / ((dst_len as i64) * 2)) - 128;
    let clamped: i64 = if pos_fp < 0 {
        0
    } else if pos_fp > max_fp {
        max_fp
    } else {
        pos_fp
    };
    let base = (clamped / 256) as u32;
    let frac = (clamped % 256) as u32;
    (base, frac)
}

/// Whether every destination pixel of a glyph stretched by
/// `numerator / denominator` maps to a source position within `i64`.
pub open spec fn interpolation_fits(glyph: GlyphMetrics, numerator: u32, denominator: u32, x: u32, y: u32) -> bool {
    let dst_w = spec_scale_ratio_nonzero(glyph.box_w, numerator, denominator);
    let dst_h = spec_scale_ratio_nonzero(glyph.box_h, numerator, denominator);
    x < dst_w && y < dst_h ==> source_coordinate_fits(x, glyph.box_w, dst_w)
        && source_coordinate_fits(y, glyph.box_h, dst_h)
}

/// 255 for a set pixel, 0 for a clear one.
pub open spec fn intensity(bit: bool) -> int {
    if bit {
        255
    } else {
        0
    }
}

/// The pixel at `(x, y)` of `glyph` stretched by `numerator / denominator`:
/// the four source pixels around the mapped position are blended bilinearly
/// with 8-bit fractions, and the pixel is set when the blend reaches half
/// intensity.
pub open spec fn spec_interpolated_glyph_bit(
    bitmap: Seq<u8>,
    glyph: GlyphMetrics,
    numerator: u32,
    denominator: u32,
    x: u32,
    y: u32,
) -> bool {
    let dst_w = spec_scale_ratio_nonzero(glyph.box_w, numerator, denominator);
    let dst_h = spec_scale_ratio_nonzero(glyph.box_h, numerator, denominator);
    if dst_w == 0 || dst_h == 0 || x >= dst_w || y >= dst_h {
        false
    } else {
        let (src_x, frac_x) = spec_scaled_source_coordinate(x, glyph.box_w, dst_w);
        let (src_y, frac_y) = spec_scaled_source_coordinate(y, glyph.box_h, dst_h);
        let last_x: int = if glyph.box_w == 0 { 0 } else { glyph.box_w - 1 };
        let last_y: int = if glyph.box_h == 0 { 0 } else { glyph.box_h - 1 };
        let src_x1 = if src_x + 1 < last_x { src_x + 1 } else { last_x };
        let src_y1 = if src_y + 1 < last_y { src_y + 1 } else { last_y };
        let v00 = intensity(spec_glyph_bitmap_bit(bitmap, glyph, src_x, src_y));
        let v10 = intensity(spec_glyph_bitmap_bit(bitmap, glyph, src_x1 as u32, src_y));
        let v01 = intensity(spec_glyph_bitmap_bit(bitmap, glyph, src_x, src_y1 as u32));
        let v11 = intensity(spec_glyph_bitmap_bit(bitmap, glyph, src_x1 as u32, src_y1 as u32));
        let top = v00 * (256 - frac_x) + v10 * frac_x;
        let bottom = v01 * (256 - frac_x) + v11 * frac_x;
        (top * (256 - frac_y) + bottom * frac_y + 32768) / 65536 >= 128
    }
}

proof fn lemma_blend_bounds(v0: u32, v1: u32, f: u32)
    requires
        v0 <= 255,
        v1 <= 255,
        f < 256,
    ensures
        0 <= v0 * (256 - f) + v1 * f <= 255 * 256,
{
    assert(0 <= v0 * (256 - f) + v1 * f <= 255 * (256 - f) + 255 * f) by (nonlinear_arith)
        requires
            v0 <= 255,
            v1 <= 255,
            f < 256,
    ;
}

proof fn lemma_shift16(v: u32)
    by (bit_vector)
    ensures
        v >> 16u32 == v / 65536,
{
}

/// Samples the pixel at `(x, y)` of `glyph` stretched by
/// `numerator / denominator`; see [`spec_interpolated_glyph_bit`].
pub fn interpolated_glyph_bit_for_ratio(
    font: &FontData<'_>,
    glyph: &GlyphMetrics,
    numerator: u32,
    denominator: u32,
    x: u32,
    y: u32,
) -> (r: bool)
    requires
        denominator != 0,
        interpolation_fits(*glyph, numerator, denominator, x, y),
    ensures
        r == spec_interpolated_glyph_bit(font.bitmap@, *glyph, numerator, denominator, x, y),
{
    let dst_w = scale_ratio_nonzero(glyph.box_w, numerator, denominator);
    let dst_h = scale_ratio_nonzero(glyph.box_h, numerator, denominator);
    if dst_w == 0 || dst_h == 0 || x >= dst_w || y >= dst_h {
        return false;
    }
    let (src_x, frac_x) = scaled_source_coordinate(x, glyph.box_w, dst_w);
    let (src_y, frac_y) = scaled_source_coordinate(y, glyph.box_h, dst_h);
    let last_x = glyph.box_w.saturating_sub(1);
    let last_y = glyph.box_h.saturating_sub(1);
    let src_x1 = if src_x + 1 < last_x { src_x + 1 } else { last_x };
    let src_y1 = if src_y + 1 < last_y { src_y + 1 } else { last_y };
    let v00: u32 = if glyph_bitmap_bit(font, glyph, src_x, src_y) { 255 } else { 0 };
    let v10: u32 = if glyph_bitmap_bit(font, glyph, src_x1, src_y) { 255 } else { 0 };
    let v01: u32 = if glyph_bitmap_bit(font, glyph, src_x, src_y1) { 255 } else { 0 };
    let v11: u32 = if glyph_bitmap_bit(font, glyph, src_x1, src_y1) { 255 } else { 0 };
    proof {
        lemma_blend_bounds(v00, v10, frac_x);
        lemma_blend_bounds(v01, v11, frac_x);
    }
    let top = v00 * (256 - frac_x) + v10 * frac_x;
    let bottom = v01 * (256 - frac_x) + v11 * frac_x;
    proof {
        assert(top * (256 - frac_y) + bottom * frac_y <= 255 * 256 * 256) by (nonlinear_arith)
            requires
                top <= 255 * 256,
                bottom <= 255 * 256,
                frac_y < 256,
        {
            assert(top * (256 - frac_y) + bottom * frac_y <= (255 * 256) * (256 - frac_y) + (255 * 256) * frac_y);
        }
    }
    let blended = top * (256 - frac_y) + bottom * frac_y + 32_768;
    proof {
        lemma_shift16(blended);
    }
    let interpolated = blended >> 16;
    interpolated >= 128
}

/// Stretching a line onto a line of the same length maps every pixel onto
/// itself with no fraction.
pub proof fn lemma_source_coordinate_same_length(d: u32, len: u32)
    requires
        d < len,
    ensures
        spec_scaled_source_coordinate(d, len, len) == (d, 0u32),
{
    if len > 1 {
        let a: int = (2 * d + 1) * 128;
        assert((2 * d + 1) * len * 256 == (len * 2) * a) by (nonlinear_arith)
            requires
                a == (2 * d + 1) * 128,
        ;
        lemma_div_multiples_vanish(a, len * 2);
        assert(((2 * d + 1) * len * 256) / (len * 2) - 128 == 256 * d);
        assert(256 * d <= (len - 1) * 256) by (nonlinear_arith)
            requires
                d < len,
        ;
        lemma_div_multiples_vanish(d as int, 256);
        lemma_mod_multiples_basic(d as int, 256);
    }
}

/// Interpolating a glyph at a ratio whose numerator equals its denominator
/// reproduces the glyph's own pixels.
pub proof fn lemma_interpolation_same_size(
    bitmap: Seq<u8>,
    glyph: GlyphMetrics,
    n: u32,
    x: u32,
    y: u32,
)
    requires
        n != 0,
    ensures
        spec_interpolated_glyph_bit(bitmap, glyph, n, n, x, y) == spec_glyph_bitmap_bit(
            bitmap,
            glyph,
            x,
            y,
        ),
{
    lemma_scale_by_one(glyph.box_w, n);
    lemma_scale_by_one(glyph.box_h, n);
    if glyph.box_w != 0 && glyph.box_h != 0 && x < glyph.box_w && y < glyph.box_h {
        lemma_source_coordinate_same_length(x, glyph.box_w);
        lemma_source_coordinate_same_length(y, glyph.box_h);
        let v = intensity(spec_glyph_bitmap_bit(bitmap, glyph, x, y));
        assert((v * 256 * 256 + 32768) / 65536 == v) by (nonlinear_arith)
            requires
                v == 0 || v == 255,
        ;
    }
}

/// The pixel a destination coordinate maps back to lies on the source line.
proof fn lemma_source_coordinate_in_line(dst: u32, src_len: u32, dst_len: u32)
    ensures
        spec_scaled_source_coordinate(dst, src_len, dst_len).0 <= if src_len == 0 {
            0
        } else {
            src_len - 1
        },
{
}

/// Resampling never sets a pixel away from the glyph's set pixels: when
/// destination pixel `(x, y)` of a glyph stretched by
/// `numerator / denominator` is set, a set source pixel lies at the column
/// and row it maps back to, or the next column or row.
pub proof fn lemma_interpolation_is_local(
    bitmap: Seq<u8>,
    glyph: GlyphMetrics,
    numerator: u32,
    denominator: u32,
    x: u32,
    y: u32,
)
    ensures
        spec_interpolated_glyph_bit(bitmap, glyph, numerator, denominator, x, y) ==> {
            let dst_w = spec_scale_ratio_nonzero(glyph.box_w, numerator, denominator);
            let dst_h = spec_scale_ratio_nonzero(glyph.box_h, numerator, denominator);
            let sx = spec_scaled_source_coordinate(x, glyph.box_w, dst_w).0;
            let sy = spec_scaled_source_coordinate(y, glyph.box_h, dst_h).0;
            exists|u: u32, v: u32|
                sx <= u <= sx + 1 && sy <= v <= sy + 1 && u < glyph.box_w && v < glyph.box_h
                    && #[trigger] spec_glyph_bitmap_bit(bitmap, glyph, u, v)
        },
{
    let dst_w = spec_scale_ratio_nonzero(glyph.box_w, numerator, denominator);
    let dst_h = spec_scale_ratio_nonzero(glyph.box_h, numerator, denominator);
    if spec_interpolated_glyph_bit(bitmap, glyph, numerator, denominator, x, y) {
        let (src_x, frac_x) = spec_scaled_source_coordinate(x, glyph.box_w, dst_w);
        let (src_y, frac_y) = spec_scaled_source_coordinate(y, glyph.box_h, dst_h);
        lemma_source_coordinate_in_line(x, glyph.box_w, dst_w);
        lemma_source_coordinate_in_line(y, glyph.box_h, dst_h);
        let right_col: int = if glyph.box_w == 0 { 0 } else { glyph.box_w - 1 };
        let bottom_row: int = if glyph.box_h == 0 { 0 } else { glyph.box_h - 1 };
        let next_x = if src_x + 1 < right_col { src_x + 1 } else { right_col };
        let next_y = if src_y + 1 < bottom_row { src_y + 1 } else { bottom_row };
        let b00 = spec_glyph_bitmap_bit(bitmap, glyph, src_x, src_y);
        let b10 = spec_glyph_bitmap_bit(bitmap, glyph, next_x as u32, src_y);
        let b01 = spec_glyph_bitmap_bit(bitmap, glyph, src_x, next_y as u32);
        let b11 = spec_glyph_bitmap_bit(bitmap, glyph, next_x as u32, next_y as u32);
        if !b00 && !b10 && !b01 && !b11 {
            let top = intensity(b00) * (256 - frac_x) + intensity(b10) * frac_x;
            let bottom = intensity(b01) * (256 - frac_x) + intensity(b11) * frac_x;
            assert(top == 0 && bottom == 0);
            assert((top * (256 - frac_y) + bottom * frac_y + 32768) / 65536 == 0);
            assert(false);
        }
    }
}

/// Resampling keeps solid areas solid: when every source pixel at the
/// column and row a destination pixel maps back to, and at the next column
/// and row within the glyph, is set, the destination pixel is set.
pub proof fn lemma_interpolation_keeps_solid_areas(
    bitmap: Seq<u8>,
    glyph: GlyphMetrics,
    numerator: u32,
    denominator: u32,
    x: u32,
    y: u32,
)
    requires
        glyph.box_w > 0,
        glyph.box_h > 0,
        denominator != 0,
        x < spec_scale_ratio_nonzero(glyph.box_w, numerator, denominator),
        y < spec_scale_ratio_nonzero(glyph.box_h, numerator, denominator),
        ({
            let dst_w = spec_scale_ratio_nonzero(glyph.box_w, numerator, denominator);
            let dst_h = spec_scale_ratio_nonzero(glyph.box_h, numerator, denominator);
            let sx = spec_scaled_source_coordinate(x, glyph.box_w, dst_w).0;
            let sy = spec_scaled_source_coordinate(y, glyph.box_h, dst_h).0;
            forall|u: u32, v: u32|
                sx <= u <= sx + 1 && sy <= v <= sy + 1 && u < glyph.box_w && v < glyph.box_h
                    ==> #[trigger] spec_glyph_bitmap_bit(bitmap, glyph, u, v)
        }),
    ensures
        spec_interpolated_glyph_bit(bitmap, glyph, numerator, denominator, x, y),
{
    let dst_w = spec_scale_ratio_nonzero(glyph.box_w, numerator, denominator);
    let dst_h = spec_scale_ratio_nonzero(glyph.box_h, numerator, denominator);
    let (src_x, frac_x) = spec_scaled_source_coordinate(x, glyph.box_w, dst_w);
    let (src_y, frac_y) = spec_scaled_source_coordinate(y, glyph.box_h, dst_h);
    lemma_source_coordinate_in_line(x, glyph.box_w, dst_w);
    lemma_source_coordinate_in_line(y, glyph.box_h, dst_h);
    let right_col: int = glyph.box_w - 1;
    let bottom_row: int = glyph.box_h - 1;
    let next_x = if src_x + 1 < right_col { src_x + 1 } else { right_col };
    let next_y = if src_y + 1 < bottom_row { src_y + 1 } else { bottom_row };
    assert(spec_glyph_bitmap_bit(bitmap, glyph, src_x, src_y));
    assert(spec_glyph_bitmap_bit(bitmap, glyph, next_x as u32, src_y));
    assert(spec_glyph_bitmap_bit(bitmap, glyph, src_x, next_y as u32));
    assert(spec_glyph_bitmap_bit(bitmap, glyph, next_x as u32, next_y as u32));
    if glyph.box_w > 1 {
        assert(frac_x < 256);
    }
    if glyph.box_h > 1 {
        assert(frac_y < 256);
    }
    let top = 255 * (256 - frac_x) + 255 * frac_x;
    assert(top == 255 * 256) by (nonlinear_arith)
        requires
            top == 255 * (256 - frac_x) + 255 * frac_x,
    ;
    let t2 = top * (256 - frac_y) + top * frac_y;
    assert(t2 == 255 * 256 * 256) by (nonlinear_arith)
        requires
            top == 255 * 256,
            t2 == top * (256 - frac_y) + top * frac_y,
    ;
}

} // verus!
