use charm_bake::font_builder::{CharRange, FontBuilder, GlyphData, OutputFormat};
use charm_bake::fonts::{sort_by_family, unique_names, SystemFontInfo};
use charm_bake::job::sanitize_filename;
use charm_bake::preview::{build_preview, PreviewSource};

#[test]
fn parses_numbers_and_ranges_sorted_once() {
    assert_eq!(CharRange::parse("65-67, 97").unwrap(), vec![65, 66, 67, 97]);
    assert_eq!(CharRange::parse("5,1-3,2-4").unwrap(), vec![1, 2, 3, 4, 5]);
    assert_eq!(CharRange::parse(" +7 ").unwrap(), vec![7]);
    assert_eq!(CharRange::parse("3-3").unwrap(), vec![3]);
}

#[test]
fn reversed_range_item_is_refused() {
    let message = String::from("Invalid range: start must be <= end");
    assert_eq!(CharRange::parse("10-5"), Err(message.clone()));
    assert_eq!(CharRange::parse("1,2, 10-5 ,x"), Err(message.clone()));
    assert_eq!(CharRange::parse_part("10-5"), Err(message));
    assert_eq!(CharRange::parse_part("5-10"), Ok((5, 10)));
}

#[test]
fn refuses_bad_items_with_their_text() {
    assert_eq!(CharRange::parse("abc"), Err(String::from("Invalid number: abc")));
    assert_eq!(CharRange::parse("1-2-3"), Err(String::from("Invalid range format: 1-2-3")));
    assert_eq!(CharRange::parse("5- 7"), Err(String::from("Invalid number:  7")));
    assert_eq!(CharRange::parse(""), Err(String::from("Invalid number: ")));
    assert_eq!(CharRange::parse("4294967296"), Err(String::from("Invalid number: 4294967296")));
    assert_eq!(CharRange::parse("1,x,2-y"), Err(String::from("Invalid number: x")));
    assert_eq!(CharRange::parse("4294967295").unwrap(), vec![4294967295]);
}

#[test]
fn output_format_names_ignore_case() {
    assert_eq!(OutputFormat::parse("HEX"), Ok(OutputFormat::Hex));
    assert_eq!(OutputFormat::parse("Bin"), Ok(OutputFormat::Bin));
    assert_eq!(OutputFormat::parse("oct"), Err(String::from("Invalid output format: oct")));
    assert_eq!(OutputFormat::from_lower("bin", "BIN"), Ok(OutputFormat::Bin));
}

#[test]
fn file_names_for_settings() {
    assert_eq!(sanitize_filename("  "), Ok(String::from("settings.json")));
    assert_eq!(sanitize_filename(" a.json "), Ok(String::from("a.json")));
    assert_eq!(sanitize_filename("a/b.json"), Err(String::from("Invalid filename")));
    assert_eq!(sanitize_filename("a\\b.json"), Err(String::from("Invalid filename")));
}

#[test]
fn builder_module_text() {
    let b = FontBuilder::new(vec![1, 2], 12, vec![65, 66, 70], 66, OutputFormat::Bin).unwrap();
    let g = |code: u32, bitmap: Vec<u8>| GlyphData {
        code,
        width: 8,
        height: bitmap.len() as u32,
        advance: 9,
        offset_x: 0,
        offset_y: 7,
        bitmap,
    };
    let glyphs = vec![g(65, vec![0x81]), g(66, vec![]), g(70, vec![1, 2])];
    let text = b.generate_with_glyphs(&glyphs, 14, 11).unwrap();
    let expected = [
        "module;\n",
        "#include <cstdint>\n",
        "#include <span>\n",
        "export module font_generated;\n",
        "\n",
        "import ui_font;\n",
        "\n",
        "static constexpr uint8_t glyph_bitmaps[] = {\n",
        "    // code 65 ('A')\n",
        "    0b10000001,\n",
        "    // code 66 ('B')\n",
        "    // code 70 ('F')\n",
        "    0b00000001,\n",
        "    0b00000010,\n",
        "};\n",
        "\n",
        "static constexpr Glyph glyph_table[] = {\n",
        "    // A (code 65)\n",
        "    { glyph_bitmaps + 0, 8, 1, 9, 0, 7 },\n",
        "    // B (code 66)\n",
        "    { glyph_bitmaps + 1, 8, 0, 9, 0, 7 },\n",
        "    // F (code 70)\n",
        "    { glyph_bitmaps + 1, 8, 2, 9, 0, 7 },\n",
        "};\n",
        "\n",
        "static constexpr GlyphRange glyph_ranges[] = {\n",
        "    { 65, 2, 0 },\n",
        "    { 70, 1, 2 },\n",
        "};\n",
        "\n",
        "export constexpr Font font = {\n",
        "    .table = glyph_table,\n",
        "    .ranges = glyph_ranges,\n",
        "    .fallback_glyph = &glyph_table[1],\n",
        "    .line_height = 14,\n",
        "    .baseline = 11\n",
        "};\n",
    ]
    .concat();
    assert_eq!(text, expected);
}

#[test]
fn preview_encodes_and_truncates() {
    let src = |n: usize| PreviewSource { width: 1, height: n as u32, advance: 2, coverage: vec![255; n] };
    let distinct = vec![(5u16, 65u32), (6, 66)];
    let (glyphs, truncated) = build_preview(&distinct, &vec![PreviewSource { width: 2, height: 1, advance: 3, coverage: vec![0, 255] }, src(3)]);
    assert_eq!(glyphs.len(), 2);
    assert_eq!(glyphs[0].bitmap_b64, "AP8=");
    assert_eq!(glyphs[0].codepoint, 65);
    assert_eq!(glyphs[1].bitmap_b64, "////");
    assert_eq!(truncated, None);

    let many: Vec<(u16, u32)> = (0..300u32).map(|i| (i as u16, 0x100 + i)).collect();
    let sources: Vec<PreviewSource> = (0..256).map(|_| src(4)).collect();
    let (glyphs, truncated) = build_preview(&many, &sources);
    assert_eq!(glyphs.len(), 256);
    assert_eq!(truncated, Some((256, 1024)));

    let big = 3 * 1024 * 1024;
    let (glyphs, truncated) = build_preview(&distinct, &vec![src(big), src(big)]);
    assert_eq!(glyphs.len(), 1);
    assert_eq!(truncated, Some((1, big)));
}

#[test]
fn font_list_order() {
    let names: Vec<String> = ["b", "a", "b", "C", "a"].iter().map(|s| s.to_string()).collect();
    assert_eq!(unique_names(&names), vec!["b".to_string(), "a".to_string(), "C".to_string()]);
    let f = |family: &str, path: &str| SystemFontInfo { family: family.to_string(), path: path.to_string() };
    let fonts = vec![f("beta", "1"), f("Alpha", "2"), f("ALPHA", "3"), f("alp", "4"), f("Zeta", "5"), f("gamma", "6")];
    let sorted: Vec<String> = sort_by_family(&fonts).into_iter().map(|x| x.path).collect();
    assert_eq!(sorted, vec!["4", "2", "3", "1", "6", "5"]);
}
