# lvgl_font_bridge

Rendering support for LVGL-generated 1bpp bitmap fonts whose glyphs are looked
up by UTF-8 symbols, written in Verus.

`src/` is the verified library:

- `font`: glyph metrics, layout, vertical metrics, `FontData` (one symbol per
  metric) with glyph lookup, `FontPreset`, and a UTF-8 character counter.
- `scale`: rounded proportional scaling of sizes and offsets.
- `bitmap`: reading glyph pixels from the packed bitmap, natively and with
  bilinear resampling for scaled styles.
- `geometry`: points, sizes, rectangles, baselines, drawing operations, and
  the steps by which a drawing is performed (in order, stopping at the first
  failed display call).
- `style`: `EgTextStyle` — advance per character, vertical metrics, baseline
  anchoring, glyph placement, and the exact sequence of drawing operations for
  a string, with laws relating drawing, measuring, transparency and scaling,
  and the effect of the setters on a style.
- `font_source`: the LVGL C font file format (sections, numbers, comments,
  glyph descriptors, code points) decoded into font data.
- `macro_input`: the decisions of the font macro's argument parser.

`app/` holds what the library leaves to its users: the `embedded-graphics`
`TextRenderer` and `CharacterStyle` implementations, which perform the drawing
operations on a `DrawTarget` as the library's steps direct, and the front end of the `lvgl_font!` macro
(token parsing, file reading, token emission).
