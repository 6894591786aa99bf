use charm_bake::font_builder::{FontBuilder, OutputFormat};
use charm_bake::packer::pack_bitmap_1b;

#[test]
fn packs_rows_msb_first_with_threshold() {
    let gray = vec![255u8, 0, 128, 127, 200, 0];
    let (packed, stride) = pack_bitmap_1b(&gray, 3, 2);
    assert_eq!(stride, 1);
    assert_eq!(packed, vec![0xA0, 0x40]);
}

#[test]
fn pads_each_row_to_whole_bytes() {
    let gray = vec![255u8; 9 * 2];
    let (packed, stride) = pack_bitmap_1b(&gray, 9, 2);
    assert_eq!(stride, 2);
    assert_eq!(packed, vec![0xFF, 0x80, 0xFF, 0x80]);
}

#[test]
fn empty_raster_packs_to_nothing() {
    let (packed, stride) = pack_bitmap_1b(&[], 0, 5);
    assert!(packed.is_empty());
    assert_eq!(stride, 0);
    let (packed, stride) = pack_bitmap_1b(&[], 12, 0);
    assert!(packed.is_empty());
    assert_eq!(stride, 2);
}

#[test]
fn bit_position_follows_byte_index_and_mask() {
    let w: u32 = 11;
    let h: u32 = 3;
    let mut gray = vec![0u8; (w * h) as usize];
    gray[(1 * w + 9) as usize] = 250;
    let (packed, stride) = pack_bitmap_1b(&gray, w, h);
    assert_eq!(stride, 2);
    let byte_index = 1 * stride + (9 >> 3);
    assert_eq!(packed[byte_index], 0x80 >> (9 & 7));
    assert_eq!(packed.iter().filter(|b| **b != 0).count(), 1);
}

#[test]
fn builder_packs_like_the_packer() {
    let b = FontBuilder::new(vec![], 16, vec![65], 63, OutputFormat::Hex).unwrap();
    let gray = vec![128u8, 0, 0, 0, 0, 0, 0, 0, 255, 0];
    assert_eq!(b.pack_bitmap(&gray, 10, 1), vec![0x80, 0x80]);
    assert_eq!(b.font_size(), 16);
    assert_eq!(b.chars(), &vec![65]);
    assert_eq!(b.fallback_char(), 63);
}
