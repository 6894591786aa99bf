use charm_bake::bake::{build_glyph_data, distinct_glyphs, BakeData, GlyphRaster};
use charm_bake::emitter::{display_char, format_byte, generate_cpp_module, render_module};
use charm_bake::job::{FontJob, FontSource, JobRange};
use charm_bake::resolver::{resolve_glyphs, Warning};

fn raster(w: u32, h: u32, fill: u8) -> GlyphRaster {
    GlyphRaster { width: w, height: h, advance: w as i32 + 1, xmin: 1, ymin: -2, coverage: vec![fill; (w * h) as usize] }
}

fn job(module_name: &str, export_name: &str, number_format: &str, comments: bool) -> FontJob {
    FontJob {
        source: FontSource::System { family: String::from("/fonts/a.ttf") },
        module_name: String::from(module_name),
        size_px: 8,
        range: JobRange { start: 65, end: 67 },
        custom_chars: None,
        fallback_char: None,
        output_kind: String::from("cpp"),
        export_name: String::from(export_name),
        with_comments: comments,
        number_format: String::from(number_format),
    }
}

fn bake(mapping: &Vec<(u32, u16)>, rasters_by_glyph: &dyn Fn(u16) -> GlyphRaster, fallback: Option<u32>) -> BakeData {
    let distinct = distinct_glyphs(mapping);
    let rasters: Vec<GlyphRaster> = distinct.iter().map(|(g, _)| rasters_by_glyph(*g)).collect();
    build_glyph_data(mapping, &distinct, &rasters, fallback)
}

#[test]
fn latin_abc_scenario() {
    let (m, w) = resolve_glyphs(&vec![65, 66, 67], &vec![36, 37, 38], None);
    assert!(w.is_empty());
    let data = bake(&m, &|_| raster(3, 2, 255), None);
    assert_eq!(data.glyphs.len(), 3);
    assert_eq!(data.ranges.len(), 1);
    let r = data.ranges[0];
    assert_eq!((r.range_start, r.range_length, r.glyph_id_start), (65, 3, 0));
    assert_eq!(data.bitmaps.len(), 6);
    assert_eq!(data.glyphs[1].offset, 2);
    assert_eq!(data.glyphs[2].y_offset, 0);
    assert_eq!(data.fallback_index, None);
}

#[test]
fn cjk_on_latin_font_with_fallback_scenario() {
    let (m, w) = resolve_glyphs(&vec![0x4E00, 0x4E01], &vec![0, 0], Some((63, 34)));
    assert_eq!(m, vec![(0x4E00, 34), (0x4E01, 34)]);
    assert_eq!(w.len(), 2);
    let distinct = distinct_glyphs(&m);
    assert_eq!(distinct, vec![(34, 0x4E00)]);
    let data = bake(&m, &|_| raster(5, 7, 200), Some(63));
    assert_eq!(data.packed_glyphs.len(), 1);
    assert_eq!(data.glyphs.len(), 2);
    assert_eq!(data.glyphs[0].offset, 0);
    assert_eq!(data.glyphs[1].offset, 0);
    assert_eq!(data.bitmaps.len(), 7);
    let r = data.ranges[0];
    assert_eq!(data.ranges.len(), 1);
    assert_eq!((r.range_start, r.range_length, r.glyph_id_start), (0x4E00, 2, 0));
}

#[test]
fn shared_glyph_is_packed_once() {
    let m = vec![(10u32, 7u16), (11, 8), (12, 7), (20, 8), (21, 9)];
    let data = bake(&m, &|g| raster(g as u32, 1, 255), None);
    assert_eq!(data.packed_glyphs.len(), 3);
    assert_eq!(data.bitmaps.len(), 1 + 1 + 2);
    assert_eq!(data.glyphs[2].offset, data.glyphs[0].offset);
    assert_eq!(data.glyphs[3].offset, data.glyphs[1].offset);
    assert_eq!((data.max_w, data.max_h), (9, 1));
    assert_eq!(data.ranges.len(), 2);
}

#[test]
fn single_codepoint_job_has_one_range() {
    let (m, _) = resolve_glyphs(&vec![0x41], &vec![36], None);
    let data = bake(&m, &|_| raster(1, 1, 255), Some(0x41));
    assert_eq!(data.ranges.len(), 1);
    assert_eq!(data.ranges[0].range_length, 1);
    assert_eq!(data.fallback_index, Some(0));
}

#[test]
fn all_missing_without_fallback() {
    let cps: Vec<u32> = (0x4E00..0x4E04).collect();
    let (m, w) = resolve_glyphs(&cps, &vec![0; 4], None);
    assert_eq!(w, cps.iter().map(|c| Warning::MissingGlyph { codepoint: *c }).collect::<Vec<_>>());
    let data = bake(&m, &|_| raster(3, 3, 255), None);
    assert_eq!(data.glyphs.len(), 4);
    assert_eq!(data.packed_glyphs.len(), 1);
    assert!(data.glyphs.iter().all(|g| g.offset == 0 && g.width == 0 && g.height == 0));
    assert!(data.bitmaps.is_empty());
    assert_eq!((data.max_w, data.max_h), (0, 0));
}

#[test]
fn byte_styles() {
    assert_eq!(format_byte(0xA5, "hex"), "0xA5");
    assert_eq!(format_byte(0x05, "hex"), "0x05");
    assert_eq!(format_byte(0xA5, "dec"), "165");
    assert_eq!(format_byte(0, "dec"), "0");
    assert_eq!(format_byte(0xA5, "bin"), "0b10100101");
    assert_eq!(format_byte(3, "bin"), "0b00000011");
    assert_eq!(format_byte(255, "octal"), "0xFF");
}

#[test]
fn display_chars() {
    assert_eq!(display_char(65), 'A');
    assert_eq!(display_char(32), ' ');
    assert_eq!(display_char(126), '~');
    assert_eq!(display_char(127), '?');
    assert_eq!(display_char(10), '?');
    assert_eq!(display_char(0x4E00), '?');
}

#[test]
fn module_text_small() {
    let (m, _) = resolve_glyphs(&vec![65, 67], &vec![36, 38], None);
    let data = bake(&m, &|g| if g == 36 { raster(2, 1, 255) } else { raster(0, 0, 0) }, Some(67));
    let text = render_module("", "ui", "dec", true, &data, 12, 9);
    let expected = [
        "module;\n",
        "#include <cstdint>\n",
        "#include <span>\n",
        "export module ui;\n",
        "\n",
        "import ui_font;\n",
        "\n",
        "// Bitmap format: 1-bit packed, row-major, MSB-first.\n",
        "// stride = (width + 7) / 8\n",
        "// byte_index = y * stride + (x >> 3)\n",
        "// bit_mask   = 0x80 >> (x & 7)\n",
        "\n",
        "static constexpr uint8_t glyph_bitmaps[] = {\n",
        "    // code 65 ('A')\n",
        "    192,\n",
        "    // code 67 ('C')\n",
        "};\n",
        "\n",
        "static constexpr Glyph glyph_table[] = {\n",
        "    // A (code 65)\n",
        "    { glyph_bitmaps + 0, 2, 1, 3, 1, -1 },\n",
        "    // C (code 67)\n",
        "    { glyph_bitmaps + 1, 0, 0, 1, 1, -2 },\n",
        "};\n",
        "\n",
        "static constexpr GlyphRange glyph_ranges[] = {\n",
        "    { 65, 1, 0 },\n",
        "    { 67, 1, 1 },\n",
        "};\n",
        "\n",
        "export constexpr Font ui = {\n",
        "    .table = glyph_table,\n",
        "    .ranges = glyph_ranges,\n",
        "    .fallback_glyph = &glyph_table[1],\n",
        "    .line_height = 12,\n",
        "    .baseline = 9\n",
        "};\n",
    ]
    .concat();
    assert_eq!(text, expected);
}

#[test]
fn module_names_default_and_comments_toggle() {
    let (m, _) = resolve_glyphs(&vec![65], &vec![36], None);
    let data = bake(&m, &|_| raster(1, 1, 255), None);
    let text = generate_cpp_module(&job("  ", "  ", "hex", false), &data, 16, -3);
    assert!(text.contains("export module font_module;\n"));
    assert!(text.contains("export constexpr Font font = {\n"));
    assert!(text.contains("    0x80,\n"));
    assert!(!text.contains("// code"));
    assert!(text.contains("    .fallback_glyph = nullptr,\n"));
    assert!(text.contains("    .baseline = -3\n"));
    let text = generate_cpp_module(&job(" mod_a ", " exp ", "bin", true), &data, 16, 12);
    assert!(text.contains("export module mod_a;\n"));
    assert!(text.contains("export constexpr Font exp = {\n"));
    assert!(text.contains("    0b10000000,\n"));
    assert!(text.contains("    // code 65 ('A')\n"));
    let text = generate_cpp_module(&job("", " exp ", "hex", true), &data, 16, 12);
    assert!(text.contains("export module exp;\n"));
}

#[test]
fn baking_twice_gives_identical_text() {
    let run = || {
        let (m, _) = resolve_glyphs(&vec![32, 33, 40, 0x4E00], &vec![3, 4, 0, 0], Some((33, 4)));
        let data = bake(&m, &|g| raster(g as u32, 3, 180), Some(33));
        generate_cpp_module(&job("m", "f", "hex", true), &data, 14, 11)
    };
    assert_eq!(run(), run());
}

#[test]
fn empty_raster_gets_zero_sized_entry() {
    let m = vec![(32u32, 3u16), (33, 4)];
    let data = bake(&m, &|g| if g == 3 { raster(0, 9, 0) } else { raster(2, 2, 255) }, None);
    let space = data.glyphs[0];
    assert_eq!((space.offset, space.width, space.height), (0, 0, 0));
    assert_eq!(space.y_offset, 7);
    assert_eq!(data.packed_glyphs[0].len, 0);
    assert_eq!(data.glyphs[1].offset, 0);
    assert_eq!((data.glyphs[1].width, data.glyphs[1].height), (2, 2));
}

#[test]
fn unicode_blank_names_take_defaults() {
    let (m, _) = resolve_glyphs(&vec![65], &vec![36], None);
    let data = bake(&m, &|_| raster(1, 1, 255), None);
    let text = generate_cpp_module(&job("\u{3000}\t", "\u{2028}", "hex", false), &data, 16, 12);
    assert!(text.contains("export module font_module;\n"));
    assert!(text.contains("export constexpr Font font = {\n"));
}
