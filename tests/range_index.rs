use charm_bake::ranges::{build_ranges, GlyphRange};

fn triples(rs: &[GlyphRange]) -> Vec<(u32, u32, usize)> {
    rs.iter().map(|r| (r.range_start, r.range_length, r.glyph_id_start)).collect()
}

fn walk(rs: &[GlyphRange]) -> Vec<u32> {
    let mut out = Vec::new();
    for r in rs {
        for k in 0..r.range_length {
            out.push(r.range_start + k);
        }
    }
    out
}

#[test]
fn one_run_for_consecutive_codes() {
    assert_eq!(triples(&build_ranges(&[65, 66, 67])), vec![(65, 3, 0)]);
}

#[test]
fn runs_split_only_at_gaps() {
    let codes = [1u32, 2, 5, 6, 7, 10];
    let rs = build_ranges(&codes);
    assert_eq!(triples(&rs), vec![(1, 2, 0), (5, 3, 2), (10, 1, 5)]);
}

#[test]
fn empty_list_has_no_ranges() {
    assert!(build_ranges(&[]).is_empty());
}

#[test]
fn single_code_is_one_range_of_length_one() {
    assert_eq!(triples(&build_ranges(&[42])), vec![(42, 1, 0)]);
}

#[test]
fn walking_the_table_gives_the_codes_back() {
    let codes = [0u32, 3, 4, 5, 0x4E00, 0x4E01, 0x10FFFF];
    let rs = build_ranges(&codes);
    assert_eq!(walk(&rs), codes.to_vec());
}

#[test]
fn top_of_u32_does_not_wrap() {
    let codes = [u32::MAX - 1, u32::MAX];
    assert_eq!(triples(&build_ranges(&codes)), vec![(u32::MAX - 1, 2, 0)]);
    let codes = [u32::MAX, 0];
    assert_eq!(triples(&build_ranges(&codes)), vec![(u32::MAX, 1, 0), (0, 1, 1)]);
}
