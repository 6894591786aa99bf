use charm_bake::job::{check_range, BakeError, FontJob, FontSource, JobRange};
use charm_bake::resolver::{
    candidate_codepoints, fallback_codepoint, fallback_from_trimmed, parse_fallback_char, resolve_glyphs,
    Warning,
};

fn job(fallback: Option<&str>) -> FontJob {
    FontJob {
        source: FontSource::File { path: String::from("font.ttf") },
        module_name: String::new(),
        size_px: 16,
        range: JobRange { start: 65, end: 67 },
        custom_chars: None,
        fallback_char: fallback.map(String::from),
        output_kind: String::from("cpp"),
        export_name: String::new(),
        with_comments: true,
        number_format: String::from("hex"),
    }
}

#[test]
fn candidates_are_range_and_custom_sorted_once() {
    let custom = Some(String::from("aBa"));
    let v = candidate_codepoints(&JobRange { start: 65, end: 67 }, &custom);
    assert_eq!(v, vec![65, 66, 67, 97]);
}

#[test]
fn candidates_skip_surrogates_and_out_of_range_values() {
    let v = candidate_codepoints(&JobRange { start: 0xD7FE, end: 0xE001 }, &None);
    assert_eq!(v, vec![0xD7FE, 0xD7FF, 0xE000, 0xE001]);
    let v = candidate_codepoints(&JobRange { start: 0x10FFFE, end: 0x110005 }, &None);
    assert_eq!(v, vec![0x10FFFE, 0x10FFFF]);
}

#[test]
fn reversed_range_is_refused() {
    assert_eq!(check_range(&JobRange { start: 10, end: 5 }), Err(BakeError::InvalidRange));
    assert_eq!(check_range(&JobRange { start: 5, end: 5 }), Ok(()));
    assert_eq!(BakeError::InvalidRange.message(), "Invalid range: start must be <= end");
}

#[test]
fn all_glyphs_present_gives_no_warnings() {
    let (m, w) = resolve_glyphs(&vec![65, 66, 67], &vec![36, 37, 38], None);
    assert_eq!(m, vec![(65, 36), (66, 37), (67, 38)]);
    assert!(w.is_empty());
}

#[test]
fn missing_glyphs_take_the_fallback_glyph() {
    let (m, w) = resolve_glyphs(&vec![0x4E00, 0x4E01], &vec![0, 0], Some((63, 34)));
    assert_eq!(m, vec![(0x4E00, 34), (0x4E01, 34)]);
    assert_eq!(
        w,
        vec![
            Warning::MissingGlyphUsingFallback { codepoint: 0x4E00, fallback: 63 },
            Warning::MissingGlyphUsingFallback { codepoint: 0x4E01, fallback: 63 },
        ]
    );
}

#[test]
fn missing_glyphs_keep_their_own_index_without_fallback() {
    let (m, w) = resolve_glyphs(&vec![1, 2, 3], &vec![0, 5, 0], None);
    assert_eq!(m, vec![(1, 0), (2, 5), (3, 0)]);
    assert_eq!(w, vec![Warning::MissingGlyph { codepoint: 1 }, Warning::MissingGlyph { codepoint: 3 }]);
    let (m, w) = resolve_glyphs(&vec![1], &vec![0], Some((63, 0)));
    assert_eq!(m, vec![(1, 0)]);
    assert_eq!(w, vec![Warning::MissingGlyphAndFallback { codepoint: 1, fallback: 63 }]);
}

#[test]
fn fallback_is_first_trimmed_char() {
    let mut w = Vec::new();
    assert_eq!(parse_fallback_char(&job(Some("  ?  ")), &mut w), Some('?'));
    assert!(w.is_empty());
    assert_eq!(parse_fallback_char(&job(Some(" ab ")), &mut w), Some('a'));
    assert_eq!(w, vec![Warning::FallbackHasSeveralChars]);
    let mut w = Vec::new();
    assert_eq!(parse_fallback_char(&job(Some("   ")), &mut w), None);
    assert_eq!(parse_fallback_char(&job(None), &mut w), None);
    assert!(w.is_empty());
    assert_eq!(fallback_codepoint(&job(Some("\t?x"))), Some(63));
    assert_eq!(fallback_from_trimmed("", &mut w), None);
}

#[test]
fn warning_texts() {
    assert_eq!(Warning::MissingGlyph { codepoint: 0x41 }.message(), "Missing glyph U+0041");
    assert_eq!(
        Warning::MissingGlyphUsingFallback { codepoint: 0x4E00, fallback: 0x3F }.message(),
        "Missing glyph U+4E00, using fallback U+003F"
    );
    assert_eq!(
        Warning::MissingGlyphAndFallback { codepoint: 0x1F600, fallback: 0x3F }.message(),
        "Missing glyph U+1F600 and fallback U+003F not found"
    );
    assert_eq!(
        Warning::FallbackHasSeveralChars.message(),
        "Fallback char has multiple characters, using the first one"
    );
    assert_eq!(
        Warning::PreviewTruncated { glyphs: 256, bytes: 1024 }.message(),
        "Preview truncated (glyphs=256, bytes=1024)"
    );
}

#[test]
fn unicode_blank_fallback_means_none() {
    let mut w = Vec::new();
    assert_eq!(parse_fallback_char(&job(Some("\u{3000}\u{2003}\u{85}")), &mut w), None);
    assert!(w.is_empty());
    assert_eq!(parse_fallback_char(&job(Some("\u{A0}?\u{205F}")), &mut w), Some('?'));
    assert!(w.is_empty());
}
