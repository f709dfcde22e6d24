//! Font payload types: glyph metrics, horizontal layout, vertical metrics,
//! the immutable font data and the preset shared by text styles.
use vstd::prelude::*;
use vstd::utf8::*;
use vstd::string::*;

use crate::style::EgTextStyle;

verus! {

/// Glyph metrics with the fields of LVGL's `lv_font_fmt_txt_glyph_dsc_t`.
#[derive(Debug, Clone, Copy, PartialEq, Eq, Hash)]
pub struct GlyphMetrics {
    pub bitmap_index: u32,
    pub adv_w: u32,
    pub box_w: u32,
    pub box_h: u32,
    pub ofs_x: i32,
    pub ofs_y: i32,
}

impl GlyphMetrics {
    /// Creates glyph metrics with LVGL-compatible fields.
    pub fn new(bitmap_index: u32, adv_w: u32, box_w: u32, box_h: u32, ofs_x: i32, ofs_y: i32) -> (g:
        Self)
        ensures
            g.bitmap_index == bitmap_index,
            g.adv_w == adv_w,
            g.box_w == box_w,
            g.box_h == box_h,
            g.ofs_x == ofs_x,
            g.ofs_y == ofs_y,
    {
        GlyphMetrics { bitmap_index, adv_w, box_w, box_h, ofs_x, ofs_y }
    }
}

/// Default horizontal settings for a font.
#[derive(Debug, Clone, Copy, PartialEq, Eq, Hash)]
pub struct FontLayout {
    pub half_width: u32,
    pub full_width: u32,
}

impl FontLayout {
    /// Creates default horizontal settings for a font.
    pub fn new(half_width: u32, full_width: u32) -> (l: Self)
        ensures
            l.half_width == half_width,
            l.full_width == full_width,
    {
        FontLayout { half_width, full_width }
    }
}

/// Vertical metrics for a font's native bitmap size.
#[derive(Debug, Clone, Copy, PartialEq, Eq, Hash)]
pub struct FontVerticalMetrics {
    pub native_size: u32,
    pub line_height: u32,
    pub baseline: u32,
}

impl FontVerticalMetrics {
    /// Creates vertical metrics for the font's native bitmap size.
    pub fn new(native_size: u32, line_height: u32, baseline: u32) -> (v: Self)
        ensures
            v.native_size == native_size,
            v.line_height == line_height,
            v.baseline == baseline,
    {
        FontVerticalMetrics { native_size, line_height, baseline }
    }
}

/// Static font data derived from an LVGL-generated font.
///
/// Each character of `symbols` corresponds to the entry of `metrics` at the
/// same index.
#[derive(Debug, Clone, Copy, PartialEq, Eq, Hash)]
pub struct FontData<'a> {
    pub bitmap: &'a [u8],
    pub symbols: &'a str,
    pub metrics: &'a [GlyphMetrics],
    pub layout: FontLayout,
    pub vertical_metrics: FontVerticalMetrics,
}

/// Number of bytes of `bytes` that are not UTF-8 continuation bytes
/// (continuation bytes have the bit pattern `10xxxxxx`).
pub open spec fn leading_byte_count(bytes: Seq<u8>) -> nat
    decreases bytes.len(),
{
    if bytes.len() == 0 {
        0
    } else {
        leading_byte_count(bytes.drop_last()) + if bytes.last() & 0xc0 != 0x80 {
            1nat
        } else {
            0nat
        }
    }
}

/// Counting leading bytes is additive over concatenation.
pub proof fn lemma_leading_byte_count_concat(a: Seq<u8>, b: Seq<u8>)
    ensures
        leading_byte_count(a + b) == leading_byte_count(a) + leading_byte_count(b),
    decreases b.len(),
{
    if b.len() == 0 {
        assert(a + b =~= a);
    } else {
        lemma_leading_byte_count_concat(a, b.drop_last());
        assert((a + b).drop_last() =~= a + b.drop_last());
        assert((a + b).last() == b.last());
    }
}

proof fn lemma_leading_byte_bits(s: u32)
    by (bit_vector)
    ensures
        ((s & 0x7F) as u8) & 0xc0 != 0x80,
        (0xC0 | ((s >> 6) & 0x1F) as u8) & 0xc0 != 0x80,
        (0xE0 | ((s >> 12) & 0x0F) as u8) & 0xc0 != 0x80,
        (0xF0 | ((s >> 18) & 0x7) as u8) & 0xc0 != 0x80,
        (0x80 | (s & 0x3F) as u8) & 0xc0 == 0x80,
        (0x80 | ((s >> 6) & 0x3F) as u8) & 0xc0 == 0x80,
        (0x80 | ((s >> 12) & 0x3F) as u8) & 0xc0 == 0x80,
{
}

/// The UTF-8 encoding of one scalar value holds exactly one leading byte.
pub proof fn lemma_leading_byte_count_scalar(s: u32)
    ensures
        leading_byte_count(encode_scalar(s)) == 1,
{
    lemma_leading_byte_bits(s);
    let e = encode_scalar(s);
    reveal_with_fuel(leading_byte_count, 5);
    if has_width_1_encoding(s) {
        assert(e.drop_last() =~= Seq::<u8>::empty());
    } else if has_width_2_encoding(s) {
        assert(e.drop_last().drop_last() =~= Seq::<u8>::empty());
    } else if has_width_3_encoding(s) {
        assert(e.drop_last().drop_last().drop_last() =~= Seq::<u8>::empty());
    } else {
        assert(e.drop_last().drop_last().drop_last().drop_last() =~= Seq::<u8>::empty());
    }
}

/// The UTF-8 encoding of a character sequence holds one leading byte per character.
pub proof fn lemma_leading_byte_count_encode(chars: Seq<char>)
    ensures
        leading_byte_count(encode_utf8(chars)) == chars.len(),
    decreases chars.len(),
{
    if chars.len() > 0 {
        lemma_leading_byte_count_encode(chars.drop_first());
        lemma_leading_byte_count_scalar(chars[0] as u32);
        lemma_leading_byte_count_concat(
            encode_scalar(chars[0] as u32),
            encode_utf8(chars.drop_first()),
        );
    }
}

/// Counts the Unicode scalar values of `text` by counting the bytes of its
/// UTF-8 encoding that are not continuation bytes.
pub fn utf8_char_count(text: &str) -> (count: usize)
    ensures
        count == text@.len(),
{
    let bytes = text.as_bytes();
    let mut index: usize = 0;
    let mut count: usize = 0;
    while index < bytes.len()
        invariant
            index <= bytes@.len(),
            count <= index,
            count == leading_byte_count(bytes@.take(index as int)),
        decreases bytes@.len() - index,
    {
        assert(bytes@.take(index + 1).drop_last() =~= bytes@.take(index as int));
        if (bytes[index] & 0b1100_0000) != 0b1000_0000 {
            count += 1;
        }
        index += 1;
    }
    proof {
        assert(bytes@.take(index as int) =~= bytes@);
        lemma_leading_byte_count_encode(text@);
    }
    count
}

impl<'a> FontData<'a> {
    /// Well-formedness: one glyph metric per symbol.
    pub open spec fn wf(&self) -> bool {
        self.symbols@.len() == self.metrics@.len()
    }

    /// Creates a new immutable font payload. The symbol string must hold
    /// exactly one character per glyph metric.
    pub fn new(
        bitmap: &'a [u8],
        symbols: &'a str,
        metrics: &'a [GlyphMetrics],
        layout: FontLayout,
        vertical_metrics: FontVerticalMetrics,
    ) -> (f: Self)
        requires
            symbols@.len() == metrics@.len(),
        ensures
            f.bitmap@ == bitmap@,
            f.symbols@ == symbols@,
            f.metrics@ == metrics@,
            f.layout == layout,
            f.vertical_metrics == vertical_metrics,
            f.wf(),
    {
        FontData { bitmap, symbols, metrics, layout, vertical_metrics }
    }

    /// Returns the default horizontal settings.
    pub fn layout(&self) -> (l: FontLayout)
        ensures
            l == self.layout,
    {
        self.layout
    }

    /// Returns the font's native vertical metrics.
    pub fn vertical_metrics(&self) -> (v: FontVerticalMetrics)
        ensures
            v == self.vertical_metrics,
    {
        self.vertical_metrics
    }

    /// The glyph that `glyph_for_char` finds for `c`: the metric at the index
    /// of the first occurrence of `c` in the symbols, when such an index and
    /// metric exist.
    pub open spec fn spec_glyph_for_char(&self, c: char) -> Option<GlyphMetrics> {
        if self.symbols@.contains(c) {
            let i = self.symbols@.index_of_first(c)->0;
            if i < self.metrics@.len() {
                Some(self.metrics@[i])
            } else {
                None
            }
        } else {
            None
        }
    }

    /// Finds a glyph by a single Unicode scalar value.
    pub fn glyph_for_char(&self, character: char) -> (r: Option<&GlyphMetrics>)
        ensures
            match r {
                Some(g) => self.spec_glyph_for_char(character) == Some(*g),
                None => self.spec_glyph_for_char(character) is None,
            },
    {
        let mut index: usize = 0;
        for candidate in it: self.symbols.chars()
            invariant
                it.seq() == self.symbols@,
                index == it.index(),
                index <= self.metrics@.len(),
                forall|j: int| 0 <= j < index ==> self.symbols@[j] != character,
        {
            if index == self.metrics.len() {
                // every later occurrence lies past the last metric
                proof {
                    self.symbols@.index_of_first_ensures(character);
                }
                return None;
            }
            if candidate == character {
                proof {
                    let s = self.symbols@;
                    s.index_of_first_ensures(character);
                    assert(s.contains(character));
                }
                return Some(&self.metrics[index]);
            }
            index += 1;
        }
        proof {
            let s = self.symbols@;
            assert(!s.contains(character));
        }
        None
    }
}

/// Base preset data shared by all text styles.
#[derive(Debug, Clone, Copy, PartialEq, Eq, Hash)]
pub struct FontPreset<'a> {
    pub font: &'a FontData<'a>,
}

impl<'a> FontPreset<'a> {
    /// Creates a preset from parsed font data.
    pub fn new(font: &'a FontData<'a>) -> (p: Self)
        ensures
            *p.font == *font,
    {
        FontPreset { font }
    }

    /// Returns the underlying font data.
    pub fn font_data(&self) -> (f: &FontData<'a>)
        ensures
            *f == *self.font,
    {
        self.font
    }

    /// Returns the preset ASCII width.
    pub fn ascii_width(&self) -> (w: u32)
        ensures
            w == self.font.layout.half_width,
    {
        self.font.layout.half_width
    }

    /// Returns the preset non-ASCII width.
    pub fn non_ascii_width(&self) -> (w: u32)
        ensures
            w == self.font.layout.full_width,
    {
        self.font.layout.full_width
    }

    /// Returns the preset default logical height derived from `full_width`.
    pub fn height(&self) -> (h: u32)
        ensures
            h == self.font.layout.full_width,
    {
        self.font.layout.full_width
    }

    /// Builds a text style using the preset default logical height.
    pub fn default_text_style<C: Copy>(&'a self, text_color: C) -> (s: EgTextStyle<'a, C>)
        ensures
            s.style_preset() == self,
            s.font() == *self.font,
            s.color() == text_color,
            s.background() is None,
            !s.transparent(),
            s.numerator() == 1,
            s.denominator() == 1,
            s.wf(),
    {
        EgTextStyle::new(self, text_color)
    }
}

} // verus!
