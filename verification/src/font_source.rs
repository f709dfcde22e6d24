//! The LVGL C font source format: locating the glyph bitmap, glyph
//! descriptor and code point sections and the font properties in a C file
//! generated by LVGL's font converter, and decoding them into font data.
//!
//! Whitespace and decimal digits are those of Unicode (`White_Space` and
//! `Decimal_Number`, Unicode 16.0); all other tokens are ASCII.
use vstd::prelude::*;

use crate::font::GlyphMetrics;

verus! {

/// A class of characters that a scan runs over.
#[derive(Debug, Clone, Copy, PartialEq, Eq, Structural)]
pub enum CharClass {
    /// Unicode `White_Space`.
    Space,
    /// Unicode `Decimal_Number`.
    Digit,
    /// ASCII hexadecimal digits.
    HexDigit,
    /// Anything but a carriage return or a line feed.
    NotLineEnd,
}

/// Unicode `White_Space` (Unicode 16.0).
pub open spec fn is_space(c: char) -> bool {
    let v = c as u32;
    (0x9 <= v <= 0xd) || v == 0x20 || v == 0x85 || v == 0xa0 || v == 0x1680 || (0x2000 <= v
        <= 0x200a) || v == 0x2028 || v == 0x2029 || v == 0x202f || v == 0x205f || v == 0x3000
}

/// Unicode `Decimal_Number` (Unicode 16.0).
pub open spec fn is_decimal_digit(c: char) -> bool {
    let v = c as u32;
    (0x30 <= v <= 0x39) || (0x660 <= v <= 0x669) || (0x6f0 <= v <= 0x6f9)
        || (0x7c0 <= v <= 0x7c9) || (0x966 <= v <= 0x96f) || (0x9e6 <= v <= 0x9ef)
        || (0xa66 <= v <= 0xa6f) || (0xae6 <= v <= 0xaef) || (0xb66 <= v <= 0xb6f)
        || (0xbe6 <= v <= 0xbef) || (0xc66 <= v <= 0xc6f) || (0xce6 <= v <= 0xcef)
        || (0xd66 <= v <= 0xd6f) || (0xde6 <= v <= 0xdef) || (0xe50 <= v <= 0xe59)
        || (0xed0 <= v <= 0xed9) || (0xf20 <= v <= 0xf29) || (0x1040 <= v <= 0x1049)
        || (0x1090 <= v <= 0x1099) || (0x17e0 <= v <= 0x17e9) || (0x1810 <= v <= 0x1819)
        || (0x1946 <= v <= 0x194f) || (0x19d0 <= v <= 0x19d9) || (0x1a80 <= v <= 0x1a89)
        || (0x1a90 <= v <= 0x1a99) || (0x1b50 <= v <= 0x1b59) || (0x1bb0 <= v <= 0x1bb9)
        || (0x1c40 <= v <= 0x1c49) || (0x1c50 <= v <= 0x1c59) || (0xa620 <= v <= 0xa629)
        || (0xa8d0 <= v <= 0xa8d9) || (0xa900 <= v <= 0xa909) || (0xa9d0 <= v <= 0xa9d9)
        || (0xa9f0 <= v <= 0xa9f9) || (0xaa50 <= v <= 0xaa59) || (0xabf0 <= v <= 0xabf9)
        || (0xff10 <= v <= 0xff19) || (0x104a0 <= v <= 0x104a9) || (0x10d30 <= v <= 0x10d39)
        || (0x10d40 <= v <= 0x10d49) || (0x11066 <= v <= 0x1106f) || (0x110f0 <= v <= 0x110f9)
        || (0x11136 <= v <= 0x1113f) || (0x111d0 <= v <= 0x111d9) || (0x112f0 <= v <= 0x112f9)
        || (0x11450 <= v <= 0x11459) || (0x114d0 <= v <= 0x114d9) || (0x11650 <= v <= 0x11659)
        || (0x116c0 <= v <= 0x116c9) || (0x116d0 <= v <= 0x116e3) || (0x11730 <= v <= 0x11739)
        || (0x118e0 <= v <= 0x118e9) || (0x11950 <= v <= 0x11959) || (0x11bf0 <= v <= 0x11bf9)
        || (0x11c50 <= v <= 0x11c59) || (0x11d50 <= v <= 0x11d59) || (0x11da0 <= v <= 0x11da9)
        || (0x11f50 <= v <= 0x11f59) || (0x16130 <= v <= 0x16139) || (0x16a60 <= v <= 0x16a69)
        || (0x16ac0 <= v <= 0x16ac9) || (0x16b50 <= v <= 0x16b59) || (0x16d70 <= v <= 0x16d79)
        || (0x1ccf0 <= v <= 0x1ccf9) || (0x1d7ce <= v <= 0x1d7ff) || (0x1e140 <= v <= 0x1e149)
        || (0x1e2f0 <= v <= 0x1e2f9) || (0x1e4f0 <= v <= 0x1e4f9) || (0x1e5f1 <= v <= 0x1e5fa)
        || (0x1e950 <= v <= 0x1e959) || (0x1fbf0 <= v <= 0x1fbf9)
}

/// ASCII hexadecimal digits.
pub open spec fn is_hex_digit(c: char) -> bool {
    let v = c as u32;
    (0x30 <= v <= 0x39) || (0x41 <= v <= 0x46) || (0x61 <= v <= 0x66)
}

/// Whether `c` belongs to `class`.
pub open spec fn in_class(c: char, class: CharClass) -> bool {
    match class {
        CharClass::Space => is_space(c),
        CharClass::Digit => is_decimal_digit(c),
        CharClass::HexDigit => is_hex_digit(c),
        CharClass::NotLineEnd => c != '\n' && c != '\r',
    }
}

/// Whether `c` belongs to `class`.
pub fn char_in_class(c: char, class: CharClass) -> (r: bool)
    ensures
        r == in_class(c, class),
{
    let v = c as u32;
    match class {
        CharClass::Space => (0x9 <= v && v <= 0xd) || v == 0x20 || v == 0x85 || v == 0xa0 || v
            == 0x1680 || (0x2000 <= v && v <= 0x200a) || v == 0x2028 || v == 0x2029 || v == 0x202f
            || v == 0x205f || v == 0x3000,
        CharClass::Digit => (0x30 <= v && v <= 0x39) || (0x660 <= v && v <= 0x669) || (0x6f0 <= v && v <= 0x6f9)
            || (0x7c0 <= v && v <= 0x7c9) || (0x966 <= v && v <= 0x96f) || (0x9e6 <= v && v <= 0x9ef)
            || (0xa66 <= v && v <= 0xa6f) || (0xae6 <= v && v <= 0xaef) || (0xb66 <= v && v <= 0xb6f)
            || (0xbe6 <= v && v <= 0xbef) || (0xc66 <= v && v <= 0xc6f) || (0xce6 <= v && v <= 0xcef)
            || (0xd66 <= v && v <= 0xd6f) || (0xde6 <= v && v <= 0xdef) || (0xe50 <= v && v <= 0xe59)
            || (0xed0 <= v && v <= 0xed9) || (0xf20 <= v && v <= 0xf29) || (0x1040 <= v && v <= 0x1049)
            || (0x1090 <= v && v <= 0x1099) || (0x17e0 <= v && v <= 0x17e9) || (0x1810 <= v && v <= 0x1819)
            || (0x1946 <= v && v <= 0x194f) || (0x19d0 <= v && v <= 0x19d9) || (0x1a80 <= v && v <= 0x1a89)
            || (0x1a90 <= v && v <= 0x1a99) || (0x1b50 <= v && v <= 0x1b59) || (0x1bb0 <= v && v <= 0x1bb9)
            || (0x1c40 <= v && v <= 0x1c49) || (0x1c50 <= v && v <= 0x1c59) || (0xa620 <= v && v <= 0xa629)
            || (0xa8d0 <= v && v <= 0xa8d9) || (0xa900 <= v && v <= 0xa909) || (0xa9d0 <= v && v <= 0xa9d9)
            || (0xa9f0 <= v && v <= 0xa9f9) || (0xaa50 <= v && v <= 0xaa59) || (0xabf0 <= v && v <= 0xabf9)
            || (0xff10 <= v && v <= 0xff19) || (0x104a0 <= v && v <= 0x104a9) || (0x10d30 <= v && v <= 0x10d39)
            || (0x10d40 <= v && v <= 0x10d49) || (0x11066 <= v && v <= 0x1106f) || (0x110f0 <= v && v <= 0x110f9)
            || (0x11136 <= v && v <= 0x1113f) || (0x111d0 <= v && v <= 0x111d9) || (0x112f0 <= v && v <= 0x112f9)
            || (0x11450 <= v && v <= 0x11459) || (0x114d0 <= v && v <= 0x114d9) || (0x11650 <= v && v <= 0x11659)
            || (0x116c0 <= v && v <= 0x116c9) || (0x116d0 <= v && v <= 0x116e3) || (0x11730 <= v && v <= 0x11739)
            || (0x118e0 <= v && v <= 0x118e9) || (0x11950 <= v && v <= 0x11959) || (0x11bf0 <= v && v <= 0x11bf9)
            || (0x11c50 <= v && v <= 0x11c59) || (0x11d50 <= v && v <= 0x11d59) || (0x11da0 <= v && v <= 0x11da9)
            || (0x11f50 <= v && v <= 0x11f59) || (0x16130 <= v && v <= 0x16139) || (0x16a60 <= v && v <= 0x16a69)
            || (0x16ac0 <= v && v <= 0x16ac9) || (0x16b50 <= v && v <= 0x16b59) || (0x16d70 <= v && v <= 0x16d79)
            || (0x1ccf0 <= v && v <= 0x1ccf9) || (0x1d7ce <= v && v <= 0x1d7ff) || (0x1e140 <= v && v <= 0x1e149)
            || (0x1e2f0 <= v && v <= 0x1e2f9) || (0x1e4f0 <= v && v <= 0x1e4f9) || (0x1e5f1 <= v && v <= 0x1e5fa)
            || (0x1e950 <= v && v <= 0x1e959) || (0x1fbf0 <= v && v <= 0x1fbf9),
        CharClass::HexDigit => (0x30 <= v && v <= 0x39) || (0x41 <= v && v <= 0x46) || (0x61 <= v
            && v <= 0x66),
        CharClass::NotLineEnd => c != '\n' && c != '\r',
    }
}

/// The end of the longest run of `class` characters starting at `p`.
pub open spec fn spec_skip(s: Seq<char>, p: int, class: CharClass) -> int
    decreases s.len() - p,
{
    if 0 <= p < s.len() && in_class(s[p], class) {
        spec_skip(s, p + 1, class)
    } else {
        p
    }
}

/// A run skip never moves backwards, and moves past a first character of
/// the class.
pub proof fn lemma_skip_bounds(s: Seq<char>, p: int, class: CharClass)
    requires
        0 <= p <= s.len(),
    ensures
        p <= spec_skip(s, p, class) <= s.len(),
        p < s.len() && in_class(s[p], class) ==> spec_skip(s, p, class) > p,
    decreases s.len() - p,
{
    if p < s.len() && in_class(s[p], class) {
        lemma_skip_bounds(s, p + 1, class);
    }
}

/// Skips the longest run of `class` characters starting at `p`.
pub fn skip_class(s: &[char], p: usize, class: CharClass) -> (q: usize)
    requires
        p <= s@.len(),
    ensures
        q == spec_skip(s@, p as int, class),
        p <= q <= s@.len(),
{
    let mut q = p;
    while q < s.len() && char_in_class(s[q], class)
        invariant
            p <= q <= s@.len(),
            spec_skip(s@, p as int, class) == spec_skip(s@, q as int, class),
        decreases s@.len() - q,
    {
        q += 1;
    }
    q
}

/// Whether `s` holds `c` at `p`.
pub open spec fn char_at(s: Seq<char>, p: int, c: char) -> bool {
    0 <= p < s.len() && s[p] == c
}

/// Whether `s` holds `lit` starting at `p`.
pub open spec fn literal_at(s: Seq<char>, p: int, lit: Seq<char>) -> bool {
    0 <= p && p + lit.len() <= s.len() && s.subrange(p, p + lit.len()) == lit
}

/// Whether `s` holds `c` at `p`.
pub fn has_char_at(s: &[char], p: usize, c: char) -> (r: bool)
    ensures
        r == char_at(s@, p as int, c),
{
    p < s.len() && s[p] == c
}

/// Whether `s` holds `lit` starting at `p`.
pub fn has_literal_at(s: &[char], p: usize, lit: &str) -> (r: bool)
    requires
        p <= s@.len(),
    ensures
        r == literal_at(s@, p as int, lit@),
{
    let mut k: usize = 0;
    for c in it: lit.chars()
        invariant
            it.seq() == lit@,
            k == it.index(),
            p + k <= s@.len(),
            s@.subrange(p as int, p + k) == lit@.subrange(0, k as int),
    {
        if k >= s.len() - p || s[p + k] != c {
            proof {
                if p + lit@.len() <= s@.len() {
                    assert(s@.subrange(p as int, p + lit@.len())[k as int] == s@[p + k]);
                }
            }
            return false;
        }
        assert(s@.subrange(p as int, p + k + 1) =~= s@.subrange(p as int, p + k).push(c));
        assert(lit@.subrange(0, k + 1) =~= lit@.subrange(0, k as int).push(c));
        k += 1;
    }
    assert(lit@.subrange(0, lit@.len() as int) =~= lit@);
    true
}

/// The first index at or after `from` where `a` is followed by `b`.
pub open spec fn spec_find_pair(s: Seq<char>, from: int, a: char, b: char) -> Option<int>
    decreases s.len() - from,
{
    if from < 0 || from >= s.len() {
        None
    } else if s[from] == a && char_at(s, from + 1, b) {
        Some(from)
    } else {
        spec_find_pair(s, from + 1, a, b)
    }
}

/// A found pair lies within the text, at or after `from`.
pub proof fn lemma_find_pair_bounds(s: Seq<char>, from: int, a: char, b: char)
    ensures
        spec_find_pair(s, from, a, b) matches Some(i) ==> from <= i && i + 1 < s.len() && s[i]
            == a && s[i + 1] == b,
    decreases s.len() - from,
{
    if 0 <= from < s.len() && !(s[from] == a && char_at(s, from + 1, b)) {
        lemma_find_pair_bounds(s, from + 1, a, b);
    }
}

/// Finds the first index at or after `from` where `a` is followed by `b`.
pub fn find_pair(s: &[char], from: usize, a: char, b: char) -> (r: Option<usize>)
    ensures
        r matches Some(i) ==> spec_find_pair(s@, from as int, a, b) == Some(i as int),
        r is None ==> spec_find_pair(s@, from as int, a, b) is None,
{
    let mut i = from;
    while i < s.len()
        invariant
            from <= i,
            spec_find_pair(s@, from as int, a, b) == spec_find_pair(s@, i as int, a, b),
        decreases s@.len() - i,
    {
        if s[i] == a && has_char_at(s, i + 1, b) {
            return Some(i);
        }
        i += 1;
    }
    None
}

/// A C array definition of the font source.
#[derive(Debug, Clone, Copy, PartialEq, Eq, Structural)]
pub enum FontSection {
    /// `glyph_bitmap[] = { ... };`
    GlyphBitmap,
    /// `glyph_dsc[] = { ... };`
    GlyphDescriptions,
    /// `unicode_list_0[] = { ... };`
    UnicodeList,
}

/// A numeric property of the font source.
#[derive(Debug, Clone, Copy, PartialEq, Eq, Structural)]
pub enum FontValue {
    /// `.range_start = N`
    RangeStart,
    /// `Size: N px` (in the header comment)
    NativeSize,
    /// `.line_height = N`
    LineHeight,
    /// `.base_line = N`
    Baseline,
}

/// What a capture scan looks for.
#[derive(Debug, Clone, Copy, PartialEq, Eq, Structural)]
pub enum Capture {
    Section(FontSection),
    Value(FontValue),
}

/// The array name that opens `section`.
pub open spec fn section_name(section: FontSection) -> Seq<char> {
    match section {
        FontSection::GlyphBitmap => "glyph_bitmap[]"@,
        FontSection::GlyphDescriptions => "glyph_dsc[]"@,
        FontSection::UnicodeList => "unicode_list_0[]"@,
    }
}

/// The array name that opens `section`.
pub fn section_name_str(section: FontSection) -> (r: &'static str)
    ensures
        r@ == section_name(section),
{
    match section {
        FontSection::GlyphBitmap => "glyph_bitmap[]",
        FontSection::GlyphDescriptions => "glyph_dsc[]",
        FontSection::UnicodeList => "unicode_list_0[]",
    }
}

/// The key that introduces `value`.
pub open spec fn value_key(value: FontValue) -> Seq<char> {
    match value {
        FontValue::RangeStart => ".range_start"@,
        FontValue::NativeSize => "Size:"@,
        FontValue::LineHeight => ".line_height"@,
        FontValue::Baseline => ".base_line"@,
    }
}

/// The key that introduces `value`.
pub fn value_key_str(value: FontValue) -> (r: &'static str)
    ensures
        r@ == value_key(value),
{
    match value {
        FontValue::RangeStart => ".range_start",
        FontValue::NativeSize => "Size:",
        FontValue::LineHeight => ".line_height",
        FontValue::Baseline => ".base_line",
    }
}

/// `NAME[] = { BODY };` starting at `p` (with any whitespace around `=`):
/// the span of `BODY`, which ends at the first `};`.
pub open spec fn spec_section_at(s: Seq<char>, p: int, section: FontSection) -> Option<(int, int)> {
    let name = section_name(section);
    if literal_at(s, p, name) {
        let q = spec_skip(s, p + name.len(), CharClass::Space);
        if char_at(s, q, '=') {
            let r = spec_skip(s, q + 1, CharClass::Space);
            if char_at(s, r, '{') {
                match spec_find_pair(s, r + 1, '}', ';') {
                    Some(e) => Some((r + 1, e)),
                    None => None,
                }
            } else {
                None
            }
        } else {
            None
        }
    } else {
        None
    }
}

/// `KEY = DIGITS` (or `Size: DIGITS px` for the native size) starting at
/// `p`: the span of the longest run of digits.
pub open spec fn spec_value_at(s: Seq<char>, p: int, value: FontValue) -> Option<(int, int)> {
    let key = value_key(value);
    if !literal_at(s, p, key) {
        None
    } else if value == FontValue::NativeSize {
        let r = spec_skip(s, p + key.len(), CharClass::Space);
        let d = spec_skip(s, r, CharClass::Digit);
        if d > r && literal_at(s, spec_skip(s, d, CharClass::Space), "px"@) {
            Some((r, d))
        } else {
            None
        }
    } else {
        let q = spec_skip(s, p + key.len(), CharClass::Space);
        if char_at(s, q, '=') {
            let r = spec_skip(s, q + 1, CharClass::Space);
            let d = spec_skip(s, r, CharClass::Digit);
            if d > r {
                Some((r, d))
            } else {
                None
            }
        } else {
            None
        }
    }
}

/// The capture of `capture` matched at `p`, if it matches there.
pub open spec fn spec_capture_at(s: Seq<char>, p: int, capture: Capture) -> Option<(int, int)> {
    match capture {
        Capture::Section(section) => spec_section_at(s, p, section),
        Capture::Value(value) => spec_value_at(s, p, value),
    }
}

/// The capture of the leftmost match at or after `p`.
pub open spec fn spec_first_capture(s: Seq<char>, p: int, capture: Capture) -> Option<(int, int)>
    decreases s.len() + 1 - p,
{
    if p < 0 || p > s.len() {
        None
    } else {
        match spec_capture_at(s, p, capture) {
            Some(m) => Some(m),
            None => spec_first_capture(s, p + 1, capture),
        }
    }
}

/// Every capture is a span within the text.
pub proof fn lemma_capture_bounds(s: Seq<char>, p: int, capture: Capture)
    ensures
        spec_capture_at(s, p, capture) matches Some((a, b)) ==> 0 <= a <= b <= s.len(),
{
    match capture {
        Capture::Section(section) => {
            let name = section_name(section);
            if literal_at(s, p, name) {
                let q = spec_skip(s, p + name.len(), CharClass::Space);
                lemma_skip_bounds(s, p + name.len(), CharClass::Space);
                if char_at(s, q, '=') {
                    let r = spec_skip(s, q + 1, CharClass::Space);
                    lemma_skip_bounds(s, q + 1, CharClass::Space);
                    lemma_find_pair_bounds(s, r + 1, '}', ';');
                }
            }
        },
        Capture::Value(value) => {
            let key = value_key(value);
            if literal_at(s, p, key) {
                lemma_skip_bounds(s, p + key.len(), CharClass::Space);
                let q = spec_skip(s, p + key.len(), CharClass::Space);
                lemma_skip_bounds(s, q, CharClass::Digit);
                if q < s.len() {
                    lemma_skip_bounds(s, q + 1, CharClass::Space);
                    lemma_skip_bounds(s, spec_skip(s, q + 1, CharClass::Space), CharClass::Digit);
                }
            }
        },
    }
}

/// The capture of `capture` matched at `p`.
pub fn capture_at(s: &[char], p: usize, capture: Capture) -> (r: Option<(usize, usize)>)
    requires
        p <= s@.len(),
    ensures
        r matches Some((a, b)) ==> spec_capture_at(s@, p as int, capture) == Some((a as int, b as int)),
        r is None ==> spec_capture_at(s@, p as int, capture) is None,
{
    let n = s.len();
    match capture {
        Capture::Section(section) => {
            let name = section_name_str(section);
            if !has_literal_at(s, p, name) {
                return None;
            }
            let q = skip_class(s, p + name.unicode_len(), CharClass::Space);
            if !has_char_at(s, q, '=') {
                return None;
            }
            let r = skip_class(s, q + 1, CharClass::Space);
            if !has_char_at(s, r, '{') {
                return None;
            }
            match find_pair(s, r + 1, '}', ';') {
                Some(e) => Some((r + 1, e)),
                None => None,
            }
        },
        Capture::Value(value) => {
            let key = value_key_str(value);
            if !has_literal_at(s, p, key) {
                return None;
            }
            let start = p + key.unicode_len();
            if value == FontValue::NativeSize {
                let r = skip_class(s, start, CharClass::Space);
                let d = skip_class(s, r, CharClass::Digit);
                let e = skip_class(s, d, CharClass::Space);
                if d > r && has_literal_at(s, e, "px") {
                    Some((r, d))
                } else {
                    None
                }
            } else {
                let q = skip_class(s, start, CharClass::Space);
                if !has_char_at(s, q, '=') {
                    return None;
                }
                let r = skip_class(s, q + 1, CharClass::Space);
                let d = skip_class(s, r, CharClass::Digit);
                if d > r {
                    Some((r, d))
                } else {
                    None
                }
            }
        },
    }
}

/// The capture of the leftmost match of `capture` in `s`.
pub fn first_capture(s: &[char], capture: Capture) -> (r: Option<(usize, usize)>)
    ensures
        r matches Some((a, b)) ==> spec_first_capture(s@, 0, capture) == Some((a as int, b as int))
            && a <= b <= s@.len(),
        r is None ==> spec_first_capture(s@, 0, capture) is None,
{
    let mut p: usize = 0;
    loop
        invariant
            p <= s@.len(),
            spec_first_capture(s@, 0, capture) == spec_first_capture(s@, p as int, capture),
        decreases s@.len() - p,
    {
        match capture_at(s, p, capture) {
            Some(m) => {
                proof {
                    lemma_capture_bounds(s@, p as int, capture);
                }
                return Some(m);
            },
            None => {},
        }
        if p == s.len() {
            assert(spec_first_capture(s@, p + 1, capture) is None);
            return None;
        }
        p += 1;
    }
}

/// A number token at `p`: `0x` followed by hexadecimal digits, or else a
/// run of decimal digits. The end of the token.
pub open spec fn spec_number_at(s: Seq<char>, p: int) -> Option<int> {
    if char_at(s, p, '0') && char_at(s, p + 1, 'x') && p + 2 < s.len() && is_hex_digit(s[p + 2]) {
        Some(spec_skip(s, p + 2, CharClass::HexDigit))
    } else if 0 <= p < s.len() && is_decimal_digit(s[p]) {
        Some(spec_skip(s, p, CharClass::Digit))
    } else {
        None
    }
}

/// A number token is not empty and lies within the text.
pub proof fn lemma_number_at_bounds(s: Seq<char>, p: int)
    ensures
        spec_number_at(s, p) matches Some(e) ==> 0 <= p < e <= s.len(),
{
    if 0 <= p < s.len() {
        if p + 2 < s.len() {
            lemma_skip_bounds(s, p + 2, CharClass::HexDigit);
        }
        lemma_skip_bounds(s, p, CharClass::Digit);
    }
}

/// The spans of the successive non-overlapping number tokens at or after
/// `from`, leftmost first.
pub open spec fn spec_numbers(s: Seq<char>, from: int) -> Seq<(int, int)>
    decreases s.len() - from,
{
    if from < 0 || from >= s.len() {
        Seq::empty()
    } else {
        match spec_number_at(s, from) {
            Some(e) => {
                proof {
                    lemma_number_at_bounds(s, from);
                }
                seq![(from, e)] + spec_numbers(s, e)
            },
            None => spec_numbers(s, from + 1),
        }
    }
}

/// The spans of all number tokens, as integers.
pub open spec fn span_view(spans: Seq<(usize, usize)>) -> Seq<(int, int)> {
    spans.map_values(|m: (usize, usize)| (m.0 as int, m.1 as int))
}

/// Finds the successive number tokens of `s`.
pub fn find_numbers(s: &[char]) -> (r: Vec<(usize, usize)>)
    ensures
        span_view(r@) == spec_numbers(s@, 0),
        forall|i: int| 0 <= i < r@.len() ==> #[trigger] r@[i].0 < r@[i].1 <= s@.len(),
{
    let mut found: Vec<(usize, usize)> = Vec::new();
    let mut p: usize = 0;
    assert(span_view(found@) =~= Seq::<(int, int)>::empty());
    while p < s.len()
        invariant
            p <= s@.len(),
            span_view(found@) + spec_numbers(s@, p as int) == spec_numbers(s@, 0),
            forall|i: int| 0 <= i < found@.len() ==> #[trigger] found@[i].0 < found@[i].1 <= s@.len(),
        decreases s@.len() - p,
    {
        let mut matched: Option<usize> = None;
        if s[p] == '0' && has_char_at(s, p + 1, 'x') && p + 2 < s.len() && char_in_class(s[p + 2], CharClass::HexDigit) {
            matched = Some(skip_class(s, p + 2, CharClass::HexDigit));
        } else if char_in_class(s[p], CharClass::Digit) {
            matched = Some(skip_class(s, p, CharClass::Digit));
        }
        proof {
            lemma_number_at_bounds(s@, p as int);
        }
        match matched {
            Some(e) => {
                assert(matched == Some(spec_number_at(s@, p as int)->0 as usize));
                let ghost before = found@;
                found.push((p, e));
                assert(span_view(found@) =~= span_view(before).push((p as int, e as int)));
                assert(spec_numbers(s@, p as int) == seq![(p as int, e as int)] + spec_numbers(s@, e as int));
                assert(span_view(found@) + spec_numbers(s@, e as int) =~= span_view(before) + spec_numbers(s@, p as int));
                p = e;
            },
            None => {
                p += 1;
            },
        }
    }
    assert(spec_numbers(s@, p as int) =~= Seq::<(int, int)>::empty());
    assert(span_view(found@) + Seq::<(int, int)>::empty() =~= span_view(found@));
    found
}

/// Kinds of C comment.
#[derive(Debug, Clone, Copy, PartialEq, Eq, Structural)]
pub enum CommentKind {
    /// `/* ... */`, ending at the first `*/`.
    Block,
    /// `// ...`, up to the end of the line.
    Line,
}

/// A comment of `kind` starting at `p`: its end.
pub open spec fn spec_comment_at(s: Seq<char>, p: int, kind: CommentKind) -> Option<int> {
    match kind {
        CommentKind::Block => if char_at(s, p, '/') && char_at(s, p + 1, '*') {
            match spec_find_pair(s, p + 2, '*', '/') {
                Some(e) => Some(e + 2),
                None => None,
            }
        } else {
            None
        },
        CommentKind::Line => if char_at(s, p, '/') && char_at(s, p + 1, '/') {
            Some(spec_skip(s, p + 2, CharClass::NotLineEnd))
        } else {
            None
        },
    }
}

/// A comment is not empty and lies within the text.
pub proof fn lemma_comment_at_bounds(s: Seq<char>, p: int, kind: CommentKind)
    ensures
        spec_comment_at(s, p, kind) matches Some(e) ==> 0 <= p < e <= s.len(),
{
    if char_at(s, p, '/') && char_at(s, p + 1, '*') {
        lemma_find_pair_bounds(s, p + 2, '*', '/');
    }
    if char_at(s, p, '/') && char_at(s, p + 1, '/') {
        lemma_skip_bounds(s, p + 2, CharClass::NotLineEnd);
    }
}

/// The text from `from` on with every comment of `kind` removed; comments
/// are matched leftmost first and do not overlap.
pub open spec fn spec_remove_comments(s: Seq<char>, from: int, kind: CommentKind) -> Seq<char>
    decreases s.len() - from,
{
    if from < 0 || from >= s.len() {
        Seq::empty()
    } else {
        match spec_comment_at(s, from, kind) {
            Some(e) => {
                proof {
                    lemma_comment_at_bounds(s, from, kind);
                }
                spec_remove_comments(s, e, kind)
            },
            None => seq![s[from]] + spec_remove_comments(s, from + 1, kind),
        }
    }
}

/// Removes every comment of `kind` from `s`.
pub fn remove_comments(s: &[char], kind: CommentKind) -> (r: Vec<char>)
    ensures
        r@ == spec_remove_comments(s@, 0, kind),
{
    let mut out: Vec<char> = Vec::new();
    let mut p: usize = 0;
    while p < s.len()
        invariant
            p <= s@.len(),
            out@ + spec_remove_comments(s@, p as int, kind) == spec_remove_comments(s@, 0, kind),
        decreases s@.len() - p,
    {
        let mut end: Option<usize> = None;
        if s[p] == '/' && has_char_at(s, p + 1, '*') && kind == CommentKind::Block {
            match find_pair(s, p + 2, '*', '/') {
                Some(e) => {
                    proof {
                        lemma_find_pair_bounds(s@, p + 2, '*', '/');
                    }
                    end = Some(e + 2);
                },
                None => {},
            }
        } else if s[p] == '/' && has_char_at(s, p + 1, '/') && kind == CommentKind::Line {
            end = Some(skip_class(s, p + 2, CharClass::NotLineEnd));
        }
        proof {
            lemma_comment_at_bounds(s@, p as int, kind);
        }
        match end {
            Some(e) => {
                assert(spec_comment_at(s@, p as int, kind) == Some(e as int));
                p = e;
            },
            None => {
                assert(spec_comment_at(s@, p as int, kind) is None);
                let ghost before = out@;
                out.push(s[p]);
                assert(out@ + spec_remove_comments(s@, p + 1, kind) =~= before + spec_remove_comments(
                    s@,
                    p as int,
                    kind,
                ));
                p += 1;
            },
        }
    }
    assert(out@ + Seq::<char>::empty() =~= out@);
    out
}

/// The text with block comments removed, then line comments removed.
pub open spec fn spec_strip_c_comments(s: Seq<char>) -> Seq<char> {
    spec_remove_comments(spec_remove_comments(s, 0, CommentKind::Block), 0, CommentKind::Line)
}

/// Removes block comments, then line comments.
pub fn strip_c_comments(section: &[char]) -> (r: Vec<char>)
    ensures
        r@ == spec_strip_c_comments(section@),
{
    let without_block = remove_comments(section, CommentKind::Block);
    remove_comments(without_block.as_slice(), CommentKind::Line)
}

/// The value of `c` as a digit in `radix` (ASCII `0-9`, then `a-z` or
/// `A-Z` for ten and up), if it is one.
pub open spec fn digit_value(c: char, radix: nat) -> Option<nat> {
    let v = c as u32;
    let d: int = if 0x30 <= v <= 0x39 {
        v - 0x30
    } else if 0x61 <= v <= 0x7a {
        v - 0x61 + 10
    } else if 0x41 <= v <= 0x5a {
        v - 0x41 + 10
    } else {
        radix as int
    };
    if d < radix {
        Some(d as nat)
    } else {
        None
    }
}

/// Whether every character of `digits` is a digit in `radix`.
pub open spec fn digits_valid(digits: Seq<char>, radix: nat) -> bool {
    forall|i: int| 0 <= i < digits.len() ==> (#[trigger] digit_value(digits[i], radix)) is Some
}

/// The value of a sequence of digits in `radix`, most significant first.
pub open spec fn digits_value(digits: Seq<char>, radix: nat) -> nat
    decreases digits.len(),
{
    if digits.len() == 0 {
        0
    } else {
        digits_value(digits.drop_last(), radix) * radix + digit_value(digits.last(), radix)->0
    }
}

/// An unsigned integer in `radix` as the standard library reads one: an
/// optional `+`, then one or more digits, with a value of at most `max`.
pub open spec fn spec_parse_unsigned(src: Seq<char>, radix: nat, max: nat) -> Option<nat> {
    let digits = if src.len() > 0 && src[0] == '+' {
        src.drop_first()
    } else {
        src
    };
    if digits.len() > 0 && digits_valid(digits, radix) && digits_value(digits, radix) <= max {
        Some(digits_value(digits, radix))
    } else {
        None
    }
}

/// A `u32` in `radix` as `u32::from_str_radix` reads one.
pub open spec fn spec_parse_u32(src: Seq<char>, radix: nat) -> Option<u32> {
    match spec_parse_unsigned(src, radix, u32::MAX as nat) {
        Some(v) => Some(v as u32),
        None => None,
    }
}

/// An `i32` as `i32::from_str` reads one: an optional sign, then one or
/// more decimal digits, with a value within `i32`.
pub open spec fn spec_parse_i32(src: Seq<char>) -> Option<i32> {
    if src.len() > 0 && src[0] == '-' {
        let digits = src.drop_first();
        if digits.len() > 0 && digits_valid(digits, 10) && digits_value(digits, 10) <= 0x8000_0000 {
            Some((-digits_value(digits, 10)) as i32)
        } else {
            None
        }
    } else {
        match spec_parse_unsigned(src, 10, i32::MAX as nat) {
            Some(v) => Some(v as i32),
            None => None,
        }
    }
}

/// A longer run of valid digits never has a smaller value.
proof fn lemma_digits_value_monotone(digits: Seq<char>, radix: nat, k: int)
    requires
        radix >= 1,
        0 <= k <= digits.len(),
        digits_valid(digits, radix),
    ensures
        digits_value(digits.subrange(0, k), radix) <= digits_value(digits, radix),
    decreases digits.len() - k,
{
    if k < digits.len() {
        let longer = digits.subrange(0, k + 1);
        assert(longer.drop_last() =~= digits.subrange(0, k));
        assert(digit_value(longer.last(), radix) is Some) by {
            assert(longer.last() == digits[k]);
        }
        assert(digits_value(longer.drop_last(), radix) * radix >= digits_value(
            longer.drop_last(),
            radix,
        )) by (nonlinear_arith)
            requires
                radix >= 1,
        ;
        lemma_digits_value_monotone(digits, radix, k + 1);
    } else {
        assert(digits.subrange(0, k) =~= digits);
    }
}

/// The value of the digits `s[a..b]` in `radix` if all are digits and the
/// value is at most `max`.
fn parse_digits(s: &[char], a: usize, b: usize, radix: u32, max: u64) -> (r: Option<u64>)
    requires
        a <= b <= s@.len(),
        2 <= radix <= 36,
        max <= 0x1_0000_0000,
    ensures
        r matches Some(v) ==> digits_valid(s@.subrange(a as int, b as int), radix as nat) && v
            == digits_value(s@.subrange(a as int, b as int), radix as nat) && v <= max,
        r is None ==> !(digits_valid(s@.subrange(a as int, b as int), radix as nat) && digits_value(
            s@.subrange(a as int, b as int),
            radix as nat,
        ) <= max),
{
    let ghost all = s@.subrange(a as int, b as int);
    let mut acc: u64 = 0;
    let mut i = a;
    assert(s@.subrange(a as int, a as int) =~= Seq::<char>::empty());
    while i < b
        invariant
            a <= i <= b <= s@.len(),
            2 <= radix <= 36,
            max <= 0x1_0000_0000,
            all == s@.subrange(a as int, b as int),
            digits_valid(s@.subrange(a as int, i as int), radix as nat),
            acc == digits_value(s@.subrange(a as int, i as int), radix as nat),
            acc <= max,
        decreases b - i,
    {
        let v = s[i] as u32;
        let d: u32 = if 0x30 <= v && v <= 0x39 {
            v - 0x30
        } else if 0x61 <= v && v <= 0x7a {
            v - 0x61 + 10
        } else if 0x41 <= v && v <= 0x5a {
            v - 0x41 + 10
        } else {
            radix
        };
        let ghost prefix = s@.subrange(a as int, i + 1);
        assert(prefix.drop_last() =~= s@.subrange(a as int, i as int));
        assert(prefix.last() == s@[i as int]);
        assert(all[i - a] == s@[i as int]);
        if d >= radix {
            assert(digit_value(all[i - a], radix as nat) is None);
            return None;
        }
        assert(acc * (radix as int) <= 0x1_0000_0000 * 36) by (nonlinear_arith)
            requires
                acc <= 0x1_0000_0000int,
                radix <= 36,
        ;
        acc = acc * radix as u64 + d as u64;
        i += 1;
        if acc > max {
            proof {
                if digits_valid(all, radix as nat) {
                    lemma_digits_value_monotone(all, radix as nat, i - a);
                    assert(all.subrange(0, i - a) =~= s@.subrange(a as int, i as int));
                }
            }
            return None;
        }
    }
    Some(acc)
}

/// Reads a `u32` in `radix` from `s[a..b]`, as `u32::from_str_radix` does.
pub fn parse_u32_radix(s: &[char], a: usize, b: usize, radix: u32) -> (r: Option<u32>)
    requires
        a <= b <= s@.len(),
        2 <= radix <= 36,
    ensures
        r == spec_parse_u32(s@.subrange(a as int, b as int), radix as nat),
{
    let ghost src = s@.subrange(a as int, b as int);
    let start = if a < b && s[a] == '+' {
        assert(src.drop_first() =~= s@.subrange(a + 1, b as int));
        a + 1
    } else {
        a
    };
    if start == b {
        return None;
    }
    match parse_digits(s, start, b, radix, 0xffff_ffff) {
        Some(v) => Some(v as u32),
        None => None,
    }
}

/// Reads an `i32` from `s[a..b]`, as `i32::from_str` does.
pub fn parse_i32(s: &[char], a: usize, b: usize) -> (r: Option<i32>)
    requires
        a <= b <= s@.len(),
    ensures
        r == spec_parse_i32(s@.subrange(a as int, b as int)),
{
    let ghost src = s@.subrange(a as int, b as int);
    if a < b && s[a] == '-' {
        assert(src.drop_first() =~= s@.subrange(a + 1, b as int));
        if a + 1 == b {
            return None;
        }
        match parse_digits(s, a + 1, b, 10, 0x8000_0000) {
            Some(v) => Some((0 - (v as i64)) as i32),
            None => None,
        }
    } else {
        let start = if a < b && s[a] == '+' {
            assert(src.drop_first() =~= s@.subrange(a + 1, b as int));
            a + 1
        } else {
            a
        };
        if start == b {
            return None;
        }
        match parse_digits(s, start, b, 10, 0x7fff_ffff) {
            Some(v) => Some(v as i32),
            None => None,
        }
    }
}

/// Why the font source could not be read. `T` is the text type of the
/// offending values.
#[derive(Debug, Clone, PartialEq, Eq)]
pub enum FontSourceError<T> {
    /// A C array definition is missing.
    SectionNotFound(FontSection),
    /// A font property is missing.
    ValueNotFound(FontValue),
    /// A `0x` value that is not a `u32` in hexadecimal.
    InvalidHexValue(T),
    /// A value that is not a decimal `u32`.
    InvalidIntegerValue(T),
    /// A bitmap value above 255.
    BitmapValueOutOfRange(T),
    /// A number list without any number.
    NoNumericValue,
    /// A glyph descriptor whose `ofs_x` is not an `i32`.
    InvalidOfsX,
    /// A glyph descriptor whose `ofs_y` is not an `i32`.
    InvalidOfsY,
    /// No glyph descriptor besides the leading placeholder.
    NoGlyphMetrics,
    /// The code point list and the glyph descriptors differ in length.
    LengthMismatch { unicode_list: usize, metrics: usize },
    /// A code point beyond `u32`.
    CodepointOverflow,
    /// A code point that is not a Unicode scalar value.
    InvalidCodepoint(u32),
}

/// The error with its texts taken as character sequences.
pub open spec fn error_view(e: FontSourceError<String>) -> FontSourceError<Seq<char>> {
    match e {
        FontSourceError::SectionNotFound(x) => FontSourceError::SectionNotFound(x),
        FontSourceError::ValueNotFound(x) => FontSourceError::ValueNotFound(x),
        FontSourceError::InvalidHexValue(t) => FontSourceError::InvalidHexValue(t@),
        FontSourceError::InvalidIntegerValue(t) => FontSourceError::InvalidIntegerValue(t@),
        FontSourceError::BitmapValueOutOfRange(t) => FontSourceError::BitmapValueOutOfRange(t@),
        FontSourceError::NoNumericValue => FontSourceError::NoNumericValue,
        FontSourceError::InvalidOfsX => FontSourceError::InvalidOfsX,
        FontSourceError::InvalidOfsY => FontSourceError::InvalidOfsY,
        FontSourceError::NoGlyphMetrics => FontSourceError::NoGlyphMetrics,
        FontSourceError::LengthMismatch { unicode_list, metrics } => FontSourceError::LengthMismatch {
            unicode_list,
            metrics,
        },
        FontSourceError::CodepointOverflow => FontSourceError::CodepointOverflow,
        FontSourceError::InvalidCodepoint(c) => FontSourceError::InvalidCodepoint(c),
    }
}

/// Appends `c` to `s` (`String::push`).
#[verifier::external_body]
fn push_char(s: &mut String, c: char)
    ensures
        final(s)@ == old(s)@.push(c),
{
    s.push(c);
}

/// The string of the characters `s[a..b]`.
pub fn string_from_chars(s: &[char], a: usize, b: usize) -> (r: String)
    requires
        a <= b <= s@.len(),
    ensures
        r@ == s@.subrange(a as int, b as int),
{
    let mut out = String::new();
    let mut i = a;
    while i < b
        invariant
            a <= i <= b <= s@.len(),
            out@ == s@.subrange(a as int, i as int),
        decreases b - i,
    {
        push_char(&mut out, s[i]);
        assert(out@ =~= s@.subrange(a as int, i + 1));
        i += 1;
    }
    out
}

/// A captured value as a `u32`: hexadecimal after a `0x` or `0X` prefix,
/// decimal otherwise.
pub open spec fn spec_parse_capture_u32(value: Seq<char>) -> Result<u32, FontSourceError<Seq<char>>> {
    if value.len() >= 2 && value[0] == '0' && (value[1] == 'x' || value[1] == 'X') {
        match spec_parse_u32(value.skip(2), 16) {
            Some(v) => Ok(v),
            None => Err(FontSourceError::InvalidHexValue(value)),
        }
    } else {
        match spec_parse_u32(value, 10) {
            Some(v) => Ok(v),
            None => Err(FontSourceError::InvalidIntegerValue(value)),
        }
    }
}

/// Reads the captured value `s[a..b]` as a `u32`.
pub fn parse_capture_u32(s: &[char], a: usize, b: usize) -> (r: Result<u32, FontSourceError<String>>)
    requires
        a <= b <= s@.len(),
    ensures
        match r {
            Ok(v) => spec_parse_capture_u32(s@.subrange(a as int, b as int)) == Ok::<
                u32,
                FontSourceError<Seq<char>>,
            >(v),
            Err(e) => spec_parse_capture_u32(s@.subrange(a as int, b as int)) == Err::<
                u32,
                FontSourceError<Seq<char>>,
            >(error_view(e)),
        },
{
    let ghost value = s@.subrange(a as int, b as int);
    if b - a >= 2 && s[a] == '0' && (s[a + 1] == 'x' || s[a + 1] == 'X') {
        assert(value.skip(2) =~= s@.subrange(a + 2, b as int));
        match parse_u32_radix(s, a + 2, b, 16) {
            Some(v) => Ok(v),
            None => Err(FontSourceError::InvalidHexValue(string_from_chars(s, a, b))),
        }
    } else {
        match parse_u32_radix(s, a, b, 10) {
            Some(v) => Ok(v),
            None => Err(FontSourceError::InvalidIntegerValue(string_from_chars(s, a, b))),
        }
    }
}

/// A captured bitmap value as a `u8`.
pub open spec fn spec_parse_capture_u8(value: Seq<char>) -> Result<u8, FontSourceError<Seq<char>>> {
    match spec_parse_capture_u32(value) {
        Ok(v) => if v <= 255 {
            Ok(v as u8)
        } else {
            Err(FontSourceError::BitmapValueOutOfRange(value))
        },
        Err(e) => Err(e),
    }
}

/// Reads the captured bitmap value `s[a..b]` as a `u8`.
pub fn parse_capture_u8(s: &[char], a: usize, b: usize) -> (r: Result<u8, FontSourceError<String>>)
    requires
        a <= b <= s@.len(),
    ensures
        match r {
            Ok(v) => spec_parse_capture_u8(s@.subrange(a as int, b as int)) == Ok::<
                u8,
                FontSourceError<Seq<char>>,
            >(v),
            Err(e) => spec_parse_capture_u8(s@.subrange(a as int, b as int)) == Err::<
                u8,
                FontSourceError<Seq<char>>,
            >(error_view(e)),
        },
{
    match parse_capture_u32(s, a, b) {
        Ok(v) => if v <= 255 {
            Ok(v as u8)
        } else {
            Err(FontSourceError::BitmapValueOutOfRange(string_from_chars(s, a, b)))
        },
        Err(e) => Err(e),
    }
}

/// The bitmap values of a number list, in order; the first value that is
/// not a byte stops the list.
pub open spec fn spec_parse_u8_items(s: Seq<char>, spans: Seq<(int, int)>) -> Result<Seq<u8>, FontSourceError<Seq<char>>>
    decreases spans.len(),
{
    if spans.len() == 0 {
        Ok(Seq::empty())
    } else {
        match spec_parse_u8_items(s, spans.drop_last()) {
            Err(e) => Err(e),
            Ok(values) => match spec_parse_capture_u8(s.subrange(spans.last().0, spans.last().1)) {
                Ok(v) => Ok(values.push(v)),
                Err(e) => Err(e),
            },
        }
    }
}

/// The `u32` values of a number list, in order; the first invalid value
/// stops the list.
pub open spec fn spec_parse_u32_items(s: Seq<char>, spans: Seq<(int, int)>) -> Result<Seq<u32>, FontSourceError<Seq<char>>>
    decreases spans.len(),
{
    if spans.len() == 0 {
        Ok(Seq::empty())
    } else {
        match spec_parse_u32_items(s, spans.drop_last()) {
            Err(e) => Err(e),
            Ok(values) => match spec_parse_capture_u32(s.subrange(spans.last().0, spans.last().1)) {
                Ok(v) => Ok(values.push(v)),
                Err(e) => Err(e),
            },
        }
    }
}

/// An error in a prefix of a list is the error of the whole list.
proof fn lemma_u8_items_prefix_error(s: Seq<char>, spans: Seq<(int, int)>, k: int)
    requires
        0 <= k <= spans.len(),
        spec_parse_u8_items(s, spans.take(k)) is Err,
    ensures
        spec_parse_u8_items(s, spans) == spec_parse_u8_items(s, spans.take(k)),
    decreases spans.len() - k,
{
    if k == spans.len() {
        assert(spans.take(k) =~= spans);
    } else {
        assert(spans.take(k + 1).drop_last() =~= spans.take(k));
        lemma_u8_items_prefix_error(s, spans, k + 1);
    }
}

/// An error in a prefix of a list is the error of the whole list.
proof fn lemma_u32_items_prefix_error(s: Seq<char>, spans: Seq<(int, int)>, k: int)
    requires
        0 <= k <= spans.len(),
        spec_parse_u32_items(s, spans.take(k)) is Err,
    ensures
        spec_parse_u32_items(s, spans) == spec_parse_u32_items(s, spans.take(k)),
    decreases spans.len() - k,
{
    if k == spans.len() {
        assert(spans.take(k) =~= spans);
    } else {
        assert(spans.take(k + 1).drop_last() =~= spans.take(k));
        lemma_u32_items_prefix_error(s, spans, k + 1);
    }
}

/// The bytes of a comment-free bitmap section: all its number tokens, of
/// which there must be at least one.
pub open spec fn spec_parse_u8_list(section: Seq<char>) -> Result<Seq<u8>, FontSourceError<Seq<char>>> {
    match spec_parse_u8_items(section, spec_numbers(section, 0)) {
        Err(e) => Err(e),
        Ok(values) => if values.len() == 0 {
            Err(FontSourceError::NoNumericValue)
        } else {
            Ok(values)
        },
    }
}

/// The `u32` values of a comment-free section: all its number tokens, of
/// which there must be at least one.
pub open spec fn spec_parse_u32_list(section: Seq<char>) -> Result<Seq<u32>, FontSourceError<Seq<char>>> {
    match spec_parse_u32_items(section, spec_numbers(section, 0)) {
        Err(e) => Err(e),
        Ok(values) => if values.len() == 0 {
            Err(FontSourceError::NoNumericValue)
        } else {
            Ok(values)
        },
    }
}

/// Reads the bytes of a comment-free bitmap section.
pub fn parse_u8_list(section: &[char]) -> (r: Result<Vec<u8>, FontSourceError<String>>)
    ensures
        match r {
            Ok(v) => spec_parse_u8_list(section@) == Ok::<Seq<u8>, FontSourceError<Seq<char>>>(v@),
            Err(e) => spec_parse_u8_list(section@) == Err::<Seq<u8>, FontSourceError<Seq<char>>>(
                error_view(e),
            ),
        },
{
    let spans = find_numbers(section);
    let ghost all = span_view(spans@);
    let mut values: Vec<u8> = Vec::new();
    let mut i: usize = 0;
    assert(all.take(0) =~= Seq::<(int, int)>::empty());
    while i < spans.len()
        invariant
            i <= spans@.len(),
            all == span_view(spans@),
            all == spec_numbers(section@, 0),
            forall|j: int| 0 <= j < spans@.len() ==> #[trigger] spans@[j].0 < spans@[j].1 <= section@.len(),
            spec_parse_u8_items(section@, all.take(i as int)) == Ok::<Seq<u8>, FontSourceError<Seq<char>>>(values@),
        decreases spans@.len() - i,
    {
        let (a, b) = spans[i];
        assert(all.take(i + 1).drop_last() =~= all.take(i as int));
        assert(all.take(i + 1).last() == (a as int, b as int));
        match parse_capture_u8(section, a, b) {
            Ok(v) => {
                values.push(v);
            },
            Err(e) => {
                proof {
                    lemma_u8_items_prefix_error(section@, all, i + 1);
                }
                return Err(e);
            },
        }
        i += 1;
    }
    assert(all.take(i as int) =~= all);
    if values.len() == 0 {
        return Err(FontSourceError::NoNumericValue);
    }
    Ok(values)
}

/// Reads the `u32` values of a comment-free section.
pub fn parse_u32_list(section: &[char]) -> (r: Result<Vec<u32>, FontSourceError<String>>)
    ensures
        match r {
            Ok(v) => spec_parse_u32_list(section@) == Ok::<Seq<u32>, FontSourceError<Seq<char>>>(v@),
            Err(e) => spec_parse_u32_list(section@) == Err::<Seq<u32>, FontSourceError<Seq<char>>>(
                error_view(e),
            ),
        },
{
    let spans = find_numbers(section);
    let ghost all = span_view(spans@);
    let mut values: Vec<u32> = Vec::new();
    let mut i: usize = 0;
    assert(all.take(0) =~= Seq::<(int, int)>::empty());
    while i < spans.len()
        invariant
            i <= spans@.len(),
            all == span_view(spans@),
            all == spec_numbers(section@, 0),
            forall|j: int| 0 <= j < spans@.len() ==> #[trigger] spans@[j].0 < spans@[j].1 <= section@.len(),
            spec_parse_u32_items(section@, all.take(i as int)) == Ok::<Seq<u32>, FontSourceError<Seq<char>>>(values@),
        decreases spans@.len() - i,
    {
        let (a, b) = spans[i];
        assert(all.take(i + 1).drop_last() =~= all.take(i as int));
        assert(all.take(i + 1).last() == (a as int, b as int));
        match parse_capture_u32(section, a, b) {
            Ok(v) => {
                values.push(v);
            },
            Err(e) => {
                proof {
                    lemma_u32_items_prefix_error(section@, all, i + 1);
                }
                return Err(e);
            },
        }
        i += 1;
    }
    assert(all.take(i as int) =~= all);
    if values.len() == 0 {
        return Err(FontSourceError::NoNumericValue);
    }
    Ok(values)
}

/// The spans of one glyph descriptor
/// `{ .bitmap_index = N, .adv_w = N, .box_w = N, .box_h = N, .ofs_x = N, .ofs_y = N }`:
/// the value span of each field and the end of the descriptor. `I` is the
/// position type.
pub struct DescriptorMatch<I> {
    pub end: I,
    pub bitmap_index: (I, I),
    pub adv_w: (I, I),
    pub box_w: (I, I),
    pub box_h: (I, I),
    pub ofs_x: (I, I),
    pub ofs_y: (I, I),
}

/// A span as integers.
pub open spec fn span_int(span: (usize, usize)) -> (int, int) {
    (span.0 as int, span.1 as int)
}

/// The descriptor spans as integers.
pub open spec fn descriptor_view(m: DescriptorMatch<usize>) -> DescriptorMatch<int> {
    DescriptorMatch {
        end: m.end as int,
        bitmap_index: span_int(m.bitmap_index),
        adv_w: span_int(m.adv_w),
        box_w: span_int(m.box_w),
        box_h: span_int(m.box_h),
        ofs_x: span_int(m.ofs_x),
        ofs_y: span_int(m.ofs_y),
    }
}

/// `KEY = DIGITS` starting at `p`, with an optional `-` before the digits
/// when `signed`: the span of the value (sign included).
pub open spec fn spec_field_at(s: Seq<char>, p: int, key: Seq<char>, signed: bool) -> Option<(int, int)> {
    if literal_at(s, p, key) {
        let q = spec_skip(s, p + key.len(), CharClass::Space);
        if char_at(s, q, '=') {
            let r = spec_skip(s, q + 1, CharClass::Space);
            let ds = if signed && char_at(s, r, '-') {
                r + 1
            } else {
                r
            };
            let d = spec_skip(s, ds, CharClass::Digit);
            if d > ds {
                Some((r, d))
            } else {
                None
            }
        } else {
            None
        }
    } else {
        None
    }
}

/// `, KEY = DIGITS` right after a previous field ending at `prev_end`.
pub open spec fn spec_next_field(s: Seq<char>, prev_end: int, key: Seq<char>, signed: bool) -> Option<(int, int)> {
    if char_at(s, prev_end, ',') {
        spec_field_at(s, spec_skip(s, prev_end + 1, CharClass::Space), key, signed)
    } else {
        None
    }
}

/// A glyph descriptor starting at `p`.
pub open spec fn spec_descriptor_at(s: Seq<char>, p: int) -> Option<DescriptorMatch<int>> {
    if !char_at(s, p, '{') {
        None
    } else {
        match spec_field_at(s, spec_skip(s, p + 1, CharClass::Space), ".bitmap_index"@, false) {
            None => None,
            Some(f1) => match spec_next_field(s, f1.1, ".adv_w"@, false) {
                None => None,
                Some(f2) => match spec_next_field(s, f2.1, ".box_w"@, false) {
                    None => None,
                    Some(f3) => match spec_next_field(s, f3.1, ".box_h"@, false) {
                        None => None,
                        Some(f4) => match spec_next_field(s, f4.1, ".ofs_x"@, true) {
                            None => None,
                            Some(f5) => match spec_next_field(s, f5.1, ".ofs_y"@, true) {
                                None => None,
                                Some(f6) => {
                                    let e = spec_skip(s, f6.1, CharClass::Space);
                                    if char_at(s, e, '}') {
                                        Some(
                                            DescriptorMatch {
                                                end: e + 1,
                                                bitmap_index: f1,
                                                adv_w: f2,
                                                box_w: f3,
                                                box_h: f4,
                                                ofs_x: f5,
                                                ofs_y: f6,
                                            },
                                        )
                                    } else {
                                        None
                                    }
                                },
                            },
                        },
                    },
                },
            },
        }
    }
}

/// A field value span lies within the text, after the field's start.
proof fn lemma_field_bounds(s: Seq<char>, p: int, key: Seq<char>, signed: bool)
    ensures
        spec_field_at(s, p, key, signed) matches Some((a, b)) ==> 0 <= p <= a <= b <= s.len(),
{
    if literal_at(s, p, key) {
        lemma_skip_bounds(s, p + key.len(), CharClass::Space);
        let q = spec_skip(s, p + key.len(), CharClass::Space);
        if char_at(s, q, '=') {
            lemma_skip_bounds(s, q + 1, CharClass::Space);
            let r = spec_skip(s, q + 1, CharClass::Space);
            let ds = if signed && char_at(s, r, '-') {
                r + 1
            } else {
                r
            };
            lemma_skip_bounds(s, ds, CharClass::Digit);
        }
    }
}

/// A following field value span lies within the text, after the previous
/// field.
proof fn lemma_next_field_bounds(s: Seq<char>, prev_end: int, key: Seq<char>, signed: bool)
    ensures
        spec_next_field(s, prev_end, key, signed) matches Some((a, b)) ==> 0 <= prev_end < a <= b
            <= s.len(),
{
    if char_at(s, prev_end, ',') {
        lemma_skip_bounds(s, prev_end + 1, CharClass::Space);
        lemma_field_bounds(s, spec_skip(s, prev_end + 1, CharClass::Space), key, signed);
    }
}

/// Whether every span of a descriptor lies within `len` characters.
pub open spec fn descriptor_within(m: DescriptorMatch<int>, len: int) -> bool {
    &&& 0 <= m.bitmap_index.0 <= m.bitmap_index.1 <= len
    &&& 0 <= m.adv_w.0 <= m.adv_w.1 <= len
    &&& 0 <= m.box_w.0 <= m.box_w.1 <= len
    &&& 0 <= m.box_h.0 <= m.box_h.1 <= len
    &&& 0 <= m.ofs_x.0 <= m.ofs_x.1 <= len
    &&& 0 <= m.ofs_y.0 <= m.ofs_y.1 <= len
    &&& m.end <= len
}

/// A descriptor is not empty and lies within the text.
pub proof fn lemma_descriptor_bounds(s: Seq<char>, p: int)
    ensures
        spec_descriptor_at(s, p) matches Some(m) ==> p < m.end && descriptor_within(m, s.len() as int),
{
    if char_at(s, p, '{') {
        lemma_skip_bounds(s, p + 1, CharClass::Space);
        let a1 = spec_skip(s, p + 1, CharClass::Space);
        lemma_field_bounds(s, a1, ".bitmap_index"@, false);
        if let Some(f1) = spec_field_at(s, a1, ".bitmap_index"@, false) {
            lemma_next_field_bounds(s, f1.1, ".adv_w"@, false);
            if let Some(f2) = spec_next_field(s, f1.1, ".adv_w"@, false) {
                lemma_next_field_bounds(s, f2.1, ".box_w"@, false);
                if let Some(f3) = spec_next_field(s, f2.1, ".box_w"@, false) {
                    lemma_next_field_bounds(s, f3.1, ".box_h"@, false);
                    if let Some(f4) = spec_next_field(s, f3.1, ".box_h"@, false) {
                        lemma_next_field_bounds(s, f4.1, ".ofs_x"@, true);
                        if let Some(f5) = spec_next_field(s, f4.1, ".ofs_x"@, true) {
                            lemma_next_field_bounds(s, f5.1, ".ofs_y"@, true);
                            if let Some(f6) = spec_next_field(s, f5.1, ".ofs_y"@, true) {
                                lemma_skip_bounds(s, f6.1, CharClass::Space);
                            }
                        }
                    }
                }
            }
        }
    }
}

/// Reads `KEY = DIGITS` starting at `p`.
fn field_at(s: &[char], p: usize, key: &str, signed: bool) -> (r: Option<(usize, usize)>)
    requires
        p <= s@.len(),
    ensures
        r matches Some(f) ==> spec_field_at(s@, p as int, key@, signed) == Some(span_int(f)),
        r is None ==> spec_field_at(s@, p as int, key@, signed) is None,
{
    let n = s.len();
    if !has_literal_at(s, p, key) {
        return None;
    }
    let q = skip_class(s, p + key.unicode_len(), CharClass::Space);
    if !has_char_at(s, q, '=') {
        return None;
    }
    let r = skip_class(s, q + 1, CharClass::Space);
    let ds = if signed && has_char_at(s, r, '-') {
        r + 1
    } else {
        r
    };
    let d = skip_class(s, ds, CharClass::Digit);
    if d > ds {
        Some((r, d))
    } else {
        None
    }
}

/// Reads `, KEY = DIGITS` right after a field ending at `prev_end`.
fn next_field(s: &[char], prev_end: usize, key: &str, signed: bool) -> (r: Option<(usize, usize)>)
    requires
        prev_end <= s@.len(),
    ensures
        r matches Some(f) ==> spec_next_field(s@, prev_end as int, key@, signed) == Some(span_int(f)),
        r is None ==> spec_next_field(s@, prev_end as int, key@, signed) is None,
{
    let n = s.len();
    if !has_char_at(s, prev_end, ',') {
        return None;
    }
    let a = skip_class(s, prev_end + 1, CharClass::Space);
    field_at(s, a, key, signed)
}

/// Reads a glyph descriptor starting at `p`.
pub fn descriptor_at(s: &[char], p: usize) -> (r: Option<DescriptorMatch<usize>>)
    requires
        p <= s@.len(),
    ensures
        r matches Some(m) ==> spec_descriptor_at(s@, p as int) == Some(descriptor_view(m)),
        r is None ==> spec_descriptor_at(s@, p as int) is None,
{
    let n = s.len();
    proof {
        lemma_descriptor_bounds(s@, p as int);
    }
    if !has_char_at(s, p, '{') {
        return None;
    }
    let a1 = skip_class(s, p + 1, CharClass::Space);
    let f1 = match field_at(s, a1, ".bitmap_index", false) {
        None => return None,
        Some(f) => f,
    };
    proof {
        lemma_field_bounds(s@, a1 as int, ".bitmap_index"@, false);
    }
    let f2 = match next_field(s, f1.1, ".adv_w", false) {
        None => return None,
        Some(f) => f,
    };
    proof {
        lemma_next_field_bounds(s@, f1.1 as int, ".adv_w"@, false);
    }
    let f3 = match next_field(s, f2.1, ".box_w", false) {
        None => return None,
        Some(f) => f,
    };
    proof {
        lemma_next_field_bounds(s@, f2.1 as int, ".box_w"@, false);
    }
    let f4 = match next_field(s, f3.1, ".box_h", false) {
        None => return None,
        Some(f) => f,
    };
    proof {
        lemma_next_field_bounds(s@, f3.1 as int, ".box_h"@, false);
    }
    let f5 = match next_field(s, f4.1, ".ofs_x", true) {
        None => return None,
        Some(f) => f,
    };
    proof {
        lemma_next_field_bounds(s@, f4.1 as int, ".ofs_x"@, true);
    }
    let f6 = match next_field(s, f5.1, ".ofs_y", true) {
        None => return None,
        Some(f) => f,
    };
    proof {
        lemma_next_field_bounds(s@, f5.1 as int, ".ofs_y"@, true);
    }
    let e = skip_class(s, f6.1, CharClass::Space);
    if !has_char_at(s, e, '}') {
        return None;
    }
    Some(
        DescriptorMatch {
            end: e + 1,
            bitmap_index: f1,
            adv_w: f2,
            box_w: f3,
            box_h: f4,
            ofs_x: f5,
            ofs_y: f6,
        },
    )
}

/// The successive non-overlapping glyph descriptors at or after `from`,
/// leftmost first.
pub open spec fn spec_descriptors(s: Seq<char>, from: int) -> Seq<DescriptorMatch<int>>
    decreases s.len() - from,
{
    if from < 0 || from >= s.len() {
        Seq::empty()
    } else {
        match spec_descriptor_at(s, from) {
            Some(m) => {
                proof {
                    lemma_descriptor_bounds(s, from);
                }
                seq![m] + spec_descriptors(s, m.end)
            },
            None => spec_descriptors(s, from + 1),
        }
    }
}

/// Finds the successive glyph descriptors of `s`.
pub fn find_descriptors(s: &[char]) -> (r: Vec<DescriptorMatch<usize>>)
    ensures
        r@.map_values(|m: DescriptorMatch<usize>| descriptor_view(m)) == spec_descriptors(s@, 0),
        r@.len() == spec_descriptors(s@, 0).len(),
        forall|i: int| 0 <= i < r@.len() ==> #[trigger] descriptor_view(r@[i]) == spec_descriptors(s@, 0)[i],
        forall|i: int| 0 <= i < r@.len() ==> descriptor_within(#[trigger] descriptor_view(r@[i]), s@.len() as int),
{
    let mut found: Vec<DescriptorMatch<usize>> = Vec::new();
    let mut p: usize = 0;
    assert(found@.map_values(|m: DescriptorMatch<usize>| descriptor_view(m)) =~= Seq::<DescriptorMatch<int>>::empty());
    while p < s.len()
        invariant
            p <= s@.len(),
            found@.map_values(|m: DescriptorMatch<usize>| descriptor_view(m)) + spec_descriptors(s@, p as int)
                == spec_descriptors(s@, 0),
            forall|i: int| 0 <= i < found@.len() ==> descriptor_within(#[trigger] descriptor_view(found@[i]), s@.len() as int),
        decreases s@.len() - p,
    {
        proof {
            lemma_descriptor_bounds(s@, p as int);
        }
        match descriptor_at(s, p) {
            Some(m) => {
                let ghost before = found@;
                let end = m.end;
                let ghost mv = descriptor_view(m);
                found.push(m);
                assert(found@.map_values(|m: DescriptorMatch<usize>| descriptor_view(m)) =~= before.map_values(
                    |m: DescriptorMatch<usize>| descriptor_view(m),
                ).push(mv));
                assert(spec_descriptors(s@, p as int) == seq![mv] + spec_descriptors(s@, end as int));
                assert(found@.map_values(|m: DescriptorMatch<usize>| descriptor_view(m)) + spec_descriptors(s@, end as int)
                    =~= before.map_values(|m: DescriptorMatch<usize>| descriptor_view(m)) + spec_descriptors(s@, p as int));
                p = end;
            },
            None => {
                p += 1;
            },
        }
    }
    assert(spec_descriptors(s@, p as int) =~= Seq::<DescriptorMatch<int>>::empty());
    assert(found@.map_values(|m: DescriptorMatch<usize>| descriptor_view(m)) + Seq::<DescriptorMatch<int>>::empty()
        =~= found@.map_values(|m: DescriptorMatch<usize>| descriptor_view(m)));
    assert forall|i: int| 0 <= i < found@.len() implies #[trigger] descriptor_view(found@[i])
        == spec_descriptors(s@, 0)[i] by {
        assert(found@.map_values(|m: DescriptorMatch<usize>| descriptor_view(m))[i] == descriptor_view(found@[i]));
    }
    found
}

/// The glyph metrics of one descriptor: four `u32` fields and two `i32`
/// offsets, each failing with its own error.
#[verifier::opaque]
pub open spec fn spec_descriptor_metrics(s: Seq<char>, m: DescriptorMatch<int>) -> Result<GlyphMetrics, FontSourceError<Seq<char>>> {
    match spec_parse_capture_u32(s.subrange(m.bitmap_index.0, m.bitmap_index.1)) {
        Err(e) => Err(e),
        Ok(bitmap_index) => match spec_parse_capture_u32(s.subrange(m.adv_w.0, m.adv_w.1)) {
            Err(e) => Err(e),
            Ok(adv_w) => match spec_parse_capture_u32(s.subrange(m.box_w.0, m.box_w.1)) {
                Err(e) => Err(e),
                Ok(box_w) => match spec_parse_capture_u32(s.subrange(m.box_h.0, m.box_h.1)) {
                    Err(e) => Err(e),
                    Ok(box_h) => match spec_parse_i32(s.subrange(m.ofs_x.0, m.ofs_x.1)) {
                        None => Err(FontSourceError::InvalidOfsX),
                        Some(ofs_x) => match spec_parse_i32(s.subrange(m.ofs_y.0, m.ofs_y.1)) {
                            None => Err(FontSourceError::InvalidOfsY),
                            Some(ofs_y) => Ok(GlyphMetrics { bitmap_index, adv_w, box_w, box_h, ofs_x, ofs_y }),
                        },
                    },
                },
            },
        },
    }
}

/// Reads the glyph metrics of one descriptor.
fn descriptor_metrics(s: &[char], m: &DescriptorMatch<usize>) -> (r: Result<GlyphMetrics, FontSourceError<String>>)
    requires
        descriptor_within(descriptor_view(*m), s@.len() as int),
    ensures
        match r {
            Ok(g) => spec_descriptor_metrics(s@, descriptor_view(*m)) == Ok::<GlyphMetrics, FontSourceError<Seq<char>>>(g),
            Err(e) => spec_descriptor_metrics(s@, descriptor_view(*m)) == Err::<GlyphMetrics, FontSourceError<Seq<char>>>(
                error_view(e),
            ),
        },
{
    reveal(spec_descriptor_metrics);
    let bitmap_index = match parse_capture_u32(s, m.bitmap_index.0, m.bitmap_index.1) {
        Err(e) => return Err(e),
        Ok(v) => v,
    };
    let adv_w = match parse_capture_u32(s, m.adv_w.0, m.adv_w.1) {
        Err(e) => return Err(e),
        Ok(v) => v,
    };
    let box_w = match parse_capture_u32(s, m.box_w.0, m.box_w.1) {
        Err(e) => return Err(e),
        Ok(v) => v,
    };
    let box_h = match parse_capture_u32(s, m.box_h.0, m.box_h.1) {
        Err(e) => return Err(e),
        Ok(v) => v,
    };
    let ofs_x = match parse_i32(s, m.ofs_x.0, m.ofs_x.1) {
        None => return Err(FontSourceError::InvalidOfsX),
        Some(v) => v,
    };
    let ofs_y = match parse_i32(s, m.ofs_y.0, m.ofs_y.1) {
        None => return Err(FontSourceError::InvalidOfsY),
        Some(v) => v,
    };
    Ok(GlyphMetrics { bitmap_index, adv_w, box_w, box_h, ofs_x, ofs_y })
}

/// The glyph metrics of a sequence of descriptors, in order; the first
/// failing descriptor stops the sequence.
pub open spec fn spec_metrics_items(s: Seq<char>, ms: Seq<DescriptorMatch<int>>) -> Result<Seq<GlyphMetrics>, FontSourceError<Seq<char>>>
    decreases ms.len(),
{
    if ms.len() == 0 {
        Ok(Seq::empty())
    } else {
        match spec_metrics_items(s, ms.drop_last()) {
            Err(e) => Err(e),
            Ok(values) => match spec_descriptor_metrics(s, ms.last()) {
                Ok(g) => Ok(values.push(g)),
                Err(e) => Err(e),
            },
        }
    }
}

/// An error in a prefix of the descriptors is the error of all of them.
proof fn lemma_metrics_items_prefix_error(s: Seq<char>, ms: Seq<DescriptorMatch<int>>, k: int)
    requires
        0 <= k <= ms.len(),
        spec_metrics_items(s, ms.take(k)) is Err,
    ensures
        spec_metrics_items(s, ms) == spec_metrics_items(s, ms.take(k)),
    decreases ms.len() - k,
{
    if k == ms.len() {
        assert(ms.take(k) =~= ms);
    } else {
        assert(ms.take(k + 1).drop_last() =~= ms.take(k));
        lemma_metrics_items_prefix_error(s, ms, k + 1);
    }
}

/// The descriptors that describe glyphs: all but the first, which is
/// LVGL's reserved placeholder.
pub open spec fn glyph_descriptors(all: Seq<DescriptorMatch<int>>) -> Seq<DescriptorMatch<int>> {
    if all.len() == 0 {
        all
    } else {
        all.subrange(1, all.len() as int)
    }
}

/// The glyph metrics of a glyph descriptor section: one per descriptor
/// after the placeholder.
pub open spec fn spec_glyph_metrics(body: Seq<char>) -> Result<Seq<GlyphMetrics>, FontSourceError<Seq<char>>> {
    spec_metrics_items(body, glyph_descriptors(spec_descriptors(body, 0)))
}

/// Reads the glyph metrics of a glyph descriptor section.
pub fn glyph_metrics(body: &[char]) -> (r: Result<Vec<GlyphMetrics>, FontSourceError<String>>)
    ensures
        match r {
            Ok(v) => spec_glyph_metrics(body@) == Ok::<Seq<GlyphMetrics>, FontSourceError<Seq<char>>>(v@),
            Err(e) => spec_glyph_metrics(body@) == Err::<Seq<GlyphMetrics>, FontSourceError<Seq<char>>>(
                error_view(e),
            ),
        },
{
    let found = find_descriptors(body);
    let ghost all = spec_descriptors(body@, 0);
    let ghost used = glyph_descriptors(all);
    let mut metrics: Vec<GlyphMetrics> = Vec::new();
    if found.len() == 0 {
        assert(used =~= Seq::<DescriptorMatch<int>>::empty());
        return Ok(metrics);
    }
    let mut i: usize = 1;
    assert(used.take(0) =~= Seq::<DescriptorMatch<int>>::empty());
    while i < found.len()
        invariant
            1 <= i <= found@.len(),
            found@.len() == all.len(),
            all == spec_descriptors(body@, 0),
            used == glyph_descriptors(all),
            used == all.subrange(1, all.len() as int),
            forall|j: int| 0 <= j < found@.len() ==> #[trigger] descriptor_view(found@[j]) == all[j],
            forall|j: int| 0 <= j < found@.len() ==> descriptor_within(#[trigger] descriptor_view(found@[j]), body@.len() as int),
            spec_metrics_items(body@, used.take(i - 1)) == Ok::<Seq<GlyphMetrics>, FontSourceError<Seq<char>>>(metrics@),
        decreases found@.len() - i,
    {
        assert(descriptor_view(found@[i as int]) == all[i as int]);
        assert(used.take(i as int).drop_last() =~= used.take(i - 1));
        assert(used.take(i as int).last() == all[i as int]);
        match descriptor_metrics(body, &found[i]) {
            Ok(g) => {
                metrics.push(g);
            },
            Err(e) => {
                proof {
                    assert(i <= used.len());
                    assert(spec_metrics_items(body@, used.take(i as int)) == Err::<
                        Seq<GlyphMetrics>,
                        FontSourceError<Seq<char>>,
                    >(error_view(e)));
                    lemma_metrics_items_prefix_error(body@, used, i as int);
                }
                return Err(e);
            },
        }
        i += 1;
    }
    assert(used.take(i - 1) =~= used);
    Ok(metrics)
}

/// `char::from_u32`: the character whose scalar value is `v`, or `None` when
/// `v` is a surrogate or above `0x10FFFF`.
#[verifier::external_body]
fn char_from_u32(v: u32) -> (r: Option<char>)
    ensures
        r is Some <==> vstd::utf8::is_scalar(v),
        r matches Some(c) ==> c as u32 == v,
{
    char::from_u32(v)
}

/// The characters for a list of code point offsets from `range_start`; the
/// first offset that overflows or does not give a scalar value stops the
/// list.
pub open spec fn spec_symbols(range_start: u32, offsets: Seq<u32>) -> Result<Seq<char>, FontSourceError<Seq<char>>>
    decreases offsets.len(),
{
    if offsets.len() == 0 {
        Ok(Seq::empty())
    } else {
        match spec_symbols(range_start, offsets.drop_last()) {
            Err(e) => Err(e),
            Ok(chars) => {
                let codepoint = range_start + offsets.last();
                if codepoint > u32::MAX {
                    Err(FontSourceError::CodepointOverflow)
                } else if vstd::utf8::is_scalar(codepoint as u32) {
                    Ok(chars.push((codepoint as u32) as char))
                } else {
                    Err(FontSourceError::InvalidCodepoint(codepoint as u32))
                }
            },
        }
    }
}

proof fn lemma_symbols_prefix_error(range_start: u32, offsets: Seq<u32>, k: int)
    requires
        0 <= k <= offsets.len(),
        spec_symbols(range_start, offsets.take(k)) is Err,
    ensures
        spec_symbols(range_start, offsets) == spec_symbols(range_start, offsets.take(k)),
    decreases offsets.len() - k,
{
    if k == offsets.len() {
        assert(offsets.take(k) =~= offsets);
    } else {
        assert(offsets.take(k + 1).drop_last() =~= offsets.take(k));
        lemma_symbols_prefix_error(range_start, offsets, k + 1);
    }
}

/// Each symbol is the character whose scalar value is `range_start` plus
/// its own offset, independently of the other offsets; the symbols exist
/// exactly when every such sum fits `u32` and is a Unicode scalar value.
pub proof fn lemma_symbols_are_offsets_from_range_start(range_start: u32, offsets: Seq<u32>)
    ensures
        spec_symbols(range_start, offsets) is Ok <==> forall|i: int|
            0 <= i < offsets.len() ==> range_start + #[trigger] offsets[i] <= u32::MAX
                && vstd::utf8::is_scalar((range_start + offsets[i]) as u32),
        spec_symbols(range_start, offsets) matches Ok(chars) ==> {
            &&& chars.len() == offsets.len()
            &&& forall|i: int| 0 <= i < offsets.len() ==> #[trigger] chars[i] as u32 == range_start + offsets[i]
        },
    decreases offsets.len(),
{
    if offsets.len() > 0 {
        let prefix = offsets.drop_last();
        lemma_symbols_are_offsets_from_range_start(range_start, prefix);
        assert forall|i: int| 0 <= i < prefix.len() implies prefix[i] == offsets[i] by {}
        let n = offsets.len() - 1;
        if spec_symbols(range_start, offsets) is Ok {
            let chars = spec_symbols(range_start, offsets)->Ok_0;
            let pc = spec_symbols(range_start, prefix)->Ok_0;
            let cp = (range_start + offsets[n]) as u32;
            assert(chars == pc.push(cp as char));
            assert forall|i: int| 0 <= i < offsets.len() implies #[trigger] chars[i] as u32 == range_start + offsets[i] by {
                if i < n {
                    assert(chars[i] == pc[i]);
                }
            }
        } else if forall|i: int|
            0 <= i < offsets.len() ==> range_start + #[trigger] offsets[i] <= u32::MAX
                && vstd::utf8::is_scalar((range_start + offsets[i]) as u32) {
            assert(range_start + offsets[n] <= u32::MAX);
        }
    }
}

/// Builds the symbol string from code point offsets.
pub fn symbols_from_offsets(range_start: u32, offsets: &[u32]) -> (r: Result<String, FontSourceError<String>>)
    ensures
        match r {
            Ok(v) => spec_symbols(range_start, offsets@) == Ok::<Seq<char>, FontSourceError<Seq<char>>>(v@),
            Err(e) => spec_symbols(range_start, offsets@) == Err::<Seq<char>, FontSourceError<Seq<char>>>(
                error_view(e),
            ),
        },
        r matches Ok(v) ==> v@.len() == offsets@.len() && forall|i: int|
            0 <= i < offsets@.len() ==> #[trigger] v@[i] as u32 == range_start + offsets@[i],
{
    proof {
        lemma_symbols_are_offsets_from_range_start(range_start, offsets@);
    }
    let mut symbols = String::new();
    let mut i: usize = 0;
    assert(offsets@.take(0) =~= Seq::<u32>::empty());
    while i < offsets.len()
        invariant
            i <= offsets@.len(),
            spec_symbols(range_start, offsets@.take(i as int)) == Ok::<Seq<char>, FontSourceError<Seq<char>>>(symbols@),
        decreases offsets@.len() - i,
    {
        assert(offsets@.take(i + 1).drop_last() =~= offsets@.take(i as int));
        assert(offsets@.take(i + 1).last() == offsets@[i as int]);
        let codepoint = match range_start.checked_add(offsets[i]) {
            None => {
                proof {
                    lemma_symbols_prefix_error(range_start, offsets@, i + 1);
                }
                return Err(FontSourceError::CodepointOverflow);
            },
            Some(c) => c,
        };
        match char_from_u32(codepoint) {
            None => {
                proof {
                    lemma_symbols_prefix_error(range_start, offsets@, i + 1);
                }
                return Err(FontSourceError::InvalidCodepoint(codepoint));
            },
            Some(character) => {
                proof {
                    vstd::utf8::char_u32_cast(character, codepoint);
                }
                push_char(&mut symbols, character);
            },
        }
        i += 1;
    }
    assert(offsets@.take(i as int) =~= offsets@);
    Ok(symbols)
}

/// The characters of `source`.
pub fn source_chars(source: &str) -> (r: Vec<char>)
    ensures
        r@ == source@,
{
    let mut out: Vec<char> = Vec::new();
    for c in it: source.chars()
        invariant
            it.seq() == source@,
            out@ == source@.take(it.index()),
    {
        let ghost i = it.index();
        out.push(c);
        assert(out@ =~= source@.take(i + 1));
    }
    assert(source@.take(source@.len() as int) =~= source@);
    out
}

/// The font read from an LVGL C source file.
pub struct ParsedFont {
    pub bitmap: Vec<u8>,
    pub metrics: Vec<GlyphMetrics>,
    pub symbols: String,
    pub native_size: u32,
    pub line_height: u32,
    pub baseline: u32,
}

/// The content of a font read from an LVGL C source file.
pub struct FontSourceModel {
    pub bitmap: Seq<u8>,
    pub metrics: Seq<GlyphMetrics>,
    pub symbols: Seq<char>,
    pub native_size: u32,
    pub line_height: u32,
    pub baseline: u32,
}

/// The content of a parsed font.
pub open spec fn parsed_view(f: ParsedFont) -> FontSourceModel {
    FontSourceModel {
        bitmap: f.bitmap@,
        metrics: f.metrics@,
        symbols: f.symbols@,
        native_size: f.native_size,
        line_height: f.line_height,
        baseline: f.baseline,
    }
}

/// A font property: the digits of its leftmost occurrence read as a `u32`.
pub open spec fn spec_font_value(s: Seq<char>, value: FontValue) -> Result<u32, FontSourceError<Seq<char>>> {
    match spec_first_capture(s, 0, Capture::Value(value)) {
        None => Err(FontSourceError::ValueNotFound(value)),
        Some((a, b)) => spec_parse_capture_u32(s.subrange(a, b)),
    }
}

/// Reads a font property.
pub fn font_value(s: &[char], value: FontValue) -> (r: Result<u32, FontSourceError<String>>)
    ensures
        match r {
            Ok(v) => spec_font_value(s@, value) == Ok::<u32, FontSourceError<Seq<char>>>(v),
            Err(e) => spec_font_value(s@, value) == Err::<u32, FontSourceError<Seq<char>>>(error_view(e)),
        },
{
    match first_capture(s, Capture::Value(value)) {
        None => Err(FontSourceError::ValueNotFound(value)),
        Some((a, b)) => parse_capture_u32(s, a, b),
    }
}

/// The body of a section: the text of its leftmost definition.
pub open spec fn spec_section_body(s: Seq<char>, section: FontSection) -> Option<Seq<char>> {
    match spec_first_capture(s, 0, Capture::Section(section)) {
        None => None,
        Some((a, b)) => Some(s.subrange(a, b)),
    }
}

/// Reads the body of a section.
pub fn section_body(s: &[char], section: FontSection) -> (r: Option<Vec<char>>)
    ensures
        match r {
            Some(body) => spec_section_body(s@, section) == Some(body@),
            None => spec_section_body(s@, section) is None,
        },
{
    match first_capture(s, Capture::Section(section)) {
        None => None,
        Some((a, b)) => {
            let mut body: Vec<char> = Vec::new();
            let mut i = a;
            while i < b
                invariant
                    a <= i <= b <= s@.len(),
                    body@ == s@.subrange(a as int, i as int),
                decreases b - i,
            {
                body.push(s[i]);
                assert(body@ =~= s@.subrange(a as int, i + 1));
                i += 1;
            }
            Some(body)
        },
    }
}

/// The font an LVGL C source file describes: the glyph bitmap bytes, one
/// glyph metric per descriptor after the placeholder, one symbol per code
/// point offset from `.range_start`, and the native size, line height and
/// baseline. The first problem met, in that order, is the error.
pub open spec fn spec_parse_lvgl_font(s: Seq<char>) -> Result<FontSourceModel, FontSourceError<Seq<char>>> {
    match spec_section_body(s, FontSection::GlyphBitmap) {
        None => Err(FontSourceError::SectionNotFound(FontSection::GlyphBitmap)),
        Some(bitmap_body) => match spec_section_body(s, FontSection::GlyphDescriptions) {
            None => Err(FontSourceError::SectionNotFound(FontSection::GlyphDescriptions)),
            Some(glyph_dsc_body) => match spec_section_body(s, FontSection::UnicodeList) {
                None => Err(FontSourceError::SectionNotFound(FontSection::UnicodeList)),
                Some(unicode_list_body) => match spec_parse_u8_list(spec_strip_c_comments(bitmap_body)) {
                    Err(e) => Err(e),
                    Ok(bitmap) => match spec_parse_u32_list(spec_strip_c_comments(unicode_list_body)) {
                        Err(e) => Err(e),
                        Ok(unicode_list) => match spec_font_value(s, FontValue::RangeStart) {
                            Err(e) => Err(e),
                            Ok(range_start) => match spec_font_value(s, FontValue::NativeSize) {
                                Err(e) => Err(e),
                                Ok(native_size) => match spec_font_value(s, FontValue::LineHeight) {
                                    Err(e) => Err(e),
                                    Ok(line_height) => match spec_font_value(s, FontValue::Baseline) {
                                        Err(e) => Err(e),
                                        Ok(baseline) => match spec_glyph_metrics(glyph_dsc_body) {
                                            Err(e) => Err(e),
                                            Ok(metrics) => if metrics.len() == 0 {
                                                Err(FontSourceError::NoGlyphMetrics)
                                            } else if unicode_list.len() != metrics.len() {
                                                Err(
                                                    FontSourceError::LengthMismatch {
                                                        unicode_list: unicode_list.len() as usize,
                                                        metrics: metrics.len() as usize,
                                                    },
                                                )
                                            } else {
                                                match spec_symbols(range_start, unicode_list) {
                                                    Err(e) => Err(e),
                                                    Ok(symbols) => Ok(
                                                        FontSourceModel {
                                                            bitmap,
                                                            metrics,
                                                            symbols,
                                                            native_size,
                                                            line_height,
                                                            baseline,
                                                        },
                                                    ),
                                                }
                                            },
                                        },
                                    },
                                },
                            },
                        },
                    },
                },
            },
        },
    }
}

/// Reads the font an LVGL C source file describes.
pub fn parse_lvgl_font(source: &str) -> (r: Result<ParsedFont, FontSourceError<String>>)
    ensures
        match r {
            Ok(f) => spec_parse_lvgl_font(source@) == Ok::<FontSourceModel, FontSourceError<Seq<char>>>(parsed_view(f)),
            Err(e) => spec_parse_lvgl_font(source@) == Err::<FontSourceModel, FontSourceError<Seq<char>>>(
                error_view(e),
            ),
        },
        r matches Ok(f) ==> f.symbols@.len() == f.metrics@.len() && f.metrics@.len() > 0,
{
    proof {
        lemma_parsed_font_well_formed(source@);
    }
    let s = source_chars(source);
    let s = s.as_slice();
    let bitmap_body = match section_body(s, FontSection::GlyphBitmap) {
        None => return Err(FontSourceError::SectionNotFound(FontSection::GlyphBitmap)),
        Some(b) => b,
    };
    let glyph_dsc_body = match section_body(s, FontSection::GlyphDescriptions) {
        None => return Err(FontSourceError::SectionNotFound(FontSection::GlyphDescriptions)),
        Some(b) => b,
    };
    let unicode_list_body = match section_body(s, FontSection::UnicodeList) {
        None => return Err(FontSourceError::SectionNotFound(FontSection::UnicodeList)),
        Some(b) => b,
    };
    let bitmap = match parse_u8_list(strip_c_comments(bitmap_body.as_slice()).as_slice()) {
        Err(e) => return Err(e),
        Ok(v) => v,
    };
    let unicode_list = match parse_u32_list(strip_c_comments(unicode_list_body.as_slice()).as_slice()) {
        Err(e) => return Err(e),
        Ok(v) => v,
    };
    let range_start = match font_value(s, FontValue::RangeStart) {
        Err(e) => return Err(e),
        Ok(v) => v,
    };
    let native_size = match font_value(s, FontValue::NativeSize) {
        Err(e) => return Err(e),
        Ok(v) => v,
    };
    let line_height = match font_value(s, FontValue::LineHeight) {
        Err(e) => return Err(e),
        Ok(v) => v,
    };
    let baseline = match font_value(s, FontValue::Baseline) {
        Err(e) => return Err(e),
        Ok(v) => v,
    };
    let metrics = match glyph_metrics(glyph_dsc_body.as_slice()) {
        Err(e) => return Err(e),
        Ok(v) => v,
    };
    if metrics.len() == 0 {
        return Err(FontSourceError::NoGlyphMetrics);
    }
    if unicode_list.len() != metrics.len() {
        return Err(
            FontSourceError::LengthMismatch { unicode_list: unicode_list.len(), metrics: metrics.len() },
        );
    }
    let symbols = match symbols_from_offsets(range_start, unicode_list.as_slice()) {
        Err(e) => return Err(e),
        Ok(v) => v,
    };
    Ok(ParsedFont { bitmap, metrics, symbols, native_size, line_height, baseline })
}

/// One character per code point offset.
proof fn lemma_symbols_len(range_start: u32, offsets: Seq<u32>)
    ensures
        spec_symbols(range_start, offsets) matches Ok(chars) ==> chars.len() == offsets.len(),
    decreases offsets.len(),
{
    if offsets.len() > 0 {
        lemma_symbols_len(range_start, offsets.drop_last());
    }
}

/// A font read from a source holds at least one glyph, exactly one symbol
/// per glyph metric, and at least one bitmap byte: it is well-formed font
/// data.
pub proof fn lemma_parsed_font_well_formed(s: Seq<char>)
    ensures
        spec_parse_lvgl_font(s) matches Ok(f) ==> {
            &&& f.symbols.len() == f.metrics.len()
            &&& f.metrics.len() > 0
            &&& f.bitmap.len() > 0
        },
{
    if let Some(unicode_list_body) = spec_section_body(s, FontSection::UnicodeList) {
        if let Ok(unicode_list) = spec_parse_u32_list(spec_strip_c_comments(unicode_list_body)) {
            if let Ok(range_start) = spec_font_value(s, FontValue::RangeStart) {
                lemma_symbols_len(range_start, unicode_list);
            }
        }
    }
}

/// Symbol `i` of a font read from a source is the character whose scalar
/// value is the font's `.range_start` plus entry `i` of its
/// `unicode_list` section.
pub proof fn lemma_parsed_symbols_are_code_points(s: Seq<char>)
    ensures
        spec_parse_lvgl_font(s) matches Ok(f) ==> {
            let list = spec_parse_u32_list(
                spec_strip_c_comments(spec_section_body(s, FontSection::UnicodeList)->Some_0),
            )->Ok_0;
            let range_start = spec_font_value(s, FontValue::RangeStart)->Ok_0;
            &&& f.symbols.len() == list.len()
            &&& forall|i: int|
                0 <= i < list.len() ==> #[trigger] f.symbols[i] as u32 == range_start + list[i]
        },
{
    if let Some(unicode_list_body) = spec_section_body(s, FontSection::UnicodeList) {
        if let Ok(unicode_list) = spec_parse_u32_list(spec_strip_c_comments(unicode_list_body)) {
            if let Ok(range_start) = spec_font_value(s, FontValue::RangeStart) {
                lemma_symbols_are_offsets_from_range_start(range_start, unicode_list);
            }
        }
    }
}

/// The upper-case digit character for `d` (below sixteen).
pub open spec fn digit_char(d: nat) -> char {
    if d == 0 { '0' } else if d == 1 { '1' } else if d == 2 { '2' } else if d == 3 { '3' }
    else if d == 4 { '4' } else if d == 5 { '5' } else if d == 6 { '6' } else if d == 7 { '7' }
    else if d == 8 { '8' } else if d == 9 { '9' } else if d == 10 { 'A' } else if d == 11 { 'B' }
    else if d == 12 { 'C' } else if d == 13 { 'D' } else if d == 14 { 'E' } else { 'F' }
}

/// The digits of `n` in `base` (ten or sixteen), most significant first,
/// without leading zeros.
pub open spec fn digits_in_base(n: nat, base: nat) -> Seq<char>
    decreases n,
{
    if base < 2 || n < base {
        seq![digit_char(n % 16)]
    } else {
        proof {
            assert(n / base < n) by (nonlinear_arith)
                requires
                    base >= 2,
                    n >= base,
            ;
        }
        digits_in_base(n / base, base).push(digit_char(n % base))
    }
}

/// `text` padded on the left with zeros to at least `width` characters.
pub open spec fn zero_padded(text: Seq<char>, width: nat) -> Seq<char> {
    if text.len() >= width {
        text
    } else {
        Seq::new((width - text.len()) as nat, |i: int| '0') + text
    }
}

/// The digit character for `d`.
fn digit_char_exec(d: u64) -> (c: char)
    requires
        d < 16,
    ensures
        c == digit_char(d as nat),
{
    if d == 0 { '0' } else if d == 1 { '1' } else if d == 2 { '2' } else if d == 3 { '3' }
    else if d == 4 { '4' } else if d == 5 { '5' } else if d == 6 { '6' } else if d == 7 { '7' }
    else if d == 8 { '8' } else if d == 9 { '9' } else if d == 10 { 'A' } else if d == 11 { 'B' }
    else if d == 12 { 'C' } else if d == 13 { 'D' } else if d == 14 { 'E' } else { 'F' }
}

/// Appends the digits of `n` in `base` to `out`.
fn push_digits(out: &mut String, n: u64, base: u64)
    requires
        base == 10 || base == 16,
    ensures
        final(out)@ == old(out)@ + digits_in_base(n as nat, base as nat),
    decreases n,
{
    if n < base {
        push_char(out, digit_char_exec(n));
        assert(final(out)@ =~= old(out)@ + digits_in_base(n as nat, base as nat));
    } else {
        push_digits(out, n / base, base);
        let ghost mid = out@;
        push_char(out, digit_char_exec(n % base));
        assert(final(out)@ =~= old(out)@ + digits_in_base(n as nat, base as nat));
    }
}

/// Appends the digits of `n` in `base`, padded with zeros to `width`.
fn push_padded_digits(out: &mut String, n: u64, base: u64, width: usize)
    requires
        base == 10 || base == 16,
    ensures
        final(out)@ == old(out)@ + zero_padded(digits_in_base(n as nat, base as nat), width as nat),
{
    let mut digits = String::new();
    push_digits(&mut digits, n, base);
    let len = digits.as_str().unicode_len();
    let ghost start = out@;
    if len < width {
        let mut k: usize = 0;
        while k < width - len
            invariant
                len < width,
                k <= width - len,
                out@ == start + Seq::new(k as nat, |i: int| '0'),
            decreases width - len - k,
        {
            push_char(out, '0');
            assert(out@ =~= start + Seq::new((k + 1) as nat, |i: int| '0'));
            k += 1;
        }
    }
    out.append(digits.as_str());
    assert(final(out)@ =~= old(out)@ + zero_padded(digits_in_base(n as nat, base as nat), width as nat));
}

/// The pattern text that describes `section` in messages.
pub open spec fn section_pattern(section: FontSection) -> Seq<char> {
    match section {
        FontSection::GlyphBitmap => r"glyph_bitmap\[\]\s*=\s*\{(?s)(.*?)\};"@,
        FontSection::GlyphDescriptions => r"glyph_dsc\[\]\s*=\s*\{(?s)(.*?)\};"@,
        FontSection::UnicodeList => r"unicode_list_0\[\]\s*=\s*\{(?s)(.*?)\};"@,
    }
}

fn section_pattern_str(section: FontSection) -> (r: &'static str)
    ensures
        r@ == section_pattern(section),
{
    match section {
        FontSection::GlyphBitmap => r"glyph_bitmap\[\]\s*=\s*\{(?s)(.*?)\};",
        FontSection::GlyphDescriptions => r"glyph_dsc\[\]\s*=\s*\{(?s)(.*?)\};",
        FontSection::UnicodeList => r"unicode_list_0\[\]\s*=\s*\{(?s)(.*?)\};",
    }
}

/// The pattern text that describes `value` in messages.
pub open spec fn value_pattern(value: FontValue) -> Seq<char> {
    match value {
        FontValue::RangeStart => r"\.range_start\s*=\s*(\d+)"@,
        FontValue::NativeSize => r"Size:\s*(\d+)\s*px"@,
        FontValue::LineHeight => r"\.line_height\s*=\s*(\d+)"@,
        FontValue::Baseline => r"\.base_line\s*=\s*(\d+)"@,
    }
}

fn value_pattern_str(value: FontValue) -> (r: &'static str)
    ensures
        r@ == value_pattern(value),
{
    match value {
        FontValue::RangeStart => r"\.range_start\s*=\s*(\d+)",
        FontValue::NativeSize => r"Size:\s*(\d+)\s*px",
        FontValue::LineHeight => r"\.line_height\s*=\s*(\d+)",
        FontValue::Baseline => r"\.base_line\s*=\s*(\d+)",
    }
}

/// The message that reports `e`.
pub open spec fn spec_error_message(e: FontSourceError<Seq<char>>) -> Seq<char> {
    match e {
        FontSourceError::SectionNotFound(section) => "section not found: "@ + section_pattern(section),
        FontSourceError::ValueNotFound(value) => "value not found: "@ + value_pattern(value),
        FontSourceError::InvalidHexValue(t) => "invalid hex value `"@ + t + "`"@,
        FontSourceError::InvalidIntegerValue(t) => "invalid integer value `"@ + t + "`"@,
        FontSourceError::BitmapValueOutOfRange(t) => "bitmap value `"@ + t + "` is out of range for u8"@,
        FontSourceError::NoNumericValue => "expected at least one numeric value"@,
        FontSourceError::InvalidOfsX => "invalid ofs_x value"@,
        FontSourceError::InvalidOfsY => "invalid ofs_y value"@,
        FontSourceError::NoGlyphMetrics => "no glyph metrics found in glyph_dsc[]"@,
        FontSourceError::LengthMismatch { unicode_list, metrics } => "unicode_list length ("@
            + digits_in_base(unicode_list as nat, 10) + ") does not match glyph metrics length ("@
            + digits_in_base(metrics as nat, 10) + ")"@,
        FontSourceError::CodepointOverflow => "codepoint overflow"@,
        FontSourceError::InvalidCodepoint(c) => "invalid Unicode codepoint U+"@ + zero_padded(
            digits_in_base(c as nat, 16),
            4,
        ),
    }
}

impl FontSourceError<String> {
    /// The message that reports this error.
    pub fn message(&self) -> (m: String)
        ensures
            m@ == spec_error_message(error_view(*self)),
    {
        let mut m = String::new();
        match self {
            FontSourceError::SectionNotFound(section) => {
                m.append("section not found: ");
                m.append(section_pattern_str(*section));
            },
            FontSourceError::ValueNotFound(value) => {
                m.append("value not found: ");
                m.append(value_pattern_str(*value));
            },
            FontSourceError::InvalidHexValue(t) => {
                m.append("invalid hex value `");
                m.append(t.as_str());
                m.append("`");
            },
            FontSourceError::InvalidIntegerValue(t) => {
                m.append("invalid integer value `");
                m.append(t.as_str());
                m.append("`");
            },
            FontSourceError::BitmapValueOutOfRange(t) => {
                m.append("bitmap value `");
                m.append(t.as_str());
                m.append("` is out of range for u8");
            },
            FontSourceError::NoNumericValue => {
                m.append("expected at least one numeric value");
            },
            FontSourceError::InvalidOfsX => {
                m.append("invalid ofs_x value");
            },
            FontSourceError::InvalidOfsY => {
                m.append("invalid ofs_y value");
            },
            FontSourceError::NoGlyphMetrics => {
                m.append("no glyph metrics found in glyph_dsc[]");
            },
            FontSourceError::LengthMismatch { unicode_list, metrics } => {
                m.append("unicode_list length (");
                push_digits(&mut m, *unicode_list as u64, 10);
                m.append(") does not match glyph metrics length (");
                push_digits(&mut m, *metrics as u64, 10);
                m.append(")");
            },
            FontSourceError::CodepointOverflow => {
                m.append("codepoint overflow");
            },
            FontSourceError::InvalidCodepoint(c) => {
                m.append("invalid Unicode codepoint U+");
                push_padded_digits(&mut m, *c as u64, 16, 4);
            },
        }
        m
    }
}

} // verus!
