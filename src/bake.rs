//! Glyph deduplication and assembly of the baked tables: the shared 1-bit
//! bitmap blob, one metrics entry per codepoint, and the range index.
use vstd::prelude::*;
use crate::codepoints::{is_scalar, strictly_increasing};
use crate::emitter::slices_in_blob;
use crate::packer::{pack_bitmap_1b, packed_bits};
use crate::ranges::{build_ranges, describes_codes, lemma_range_table_unique, GlyphRange};
use crate::resolver::mapping_keys;

verus! {

/// A mapping from codepoints to glyph indices as resolution leaves it:
/// ascending, each codepoint once, every codepoint a Unicode scalar value.
pub open spec fn mapping_wf(m: Seq<(u32, u16)>) -> bool {
    &&& strictly_increasing(mapping_keys(m))
    &&& forall|i: int| 0 <= i < m.len() ==> is_scalar(#[trigger] m[i].0)
}

/// Whether glyph `g` has an entry in a distinct-glyph list.
pub open spec fn glyph_listed(d: Seq<(u16, u32)>, g: u16) -> bool {
    exists|k: int| 0 <= k < d.len() && #[trigger] d[k].0 == g
}

/// The distinct glyphs of a mapping in order of first use, each with the
/// first codepoint that uses it.
pub open spec fn distinct_of(m: Seq<(u32, u16)>) -> Seq<(u16, u32)>
    decreases m.len(),
{
    if m.len() == 0 {
        Seq::empty()
    } else {
        let d = distinct_of(m.drop_last());
        if glyph_listed(d, m.last().1) {
            d
        } else {
            d.push((m.last().1, m.last().0))
        }
    }
}

/// No glyph is listed twice in a distinct-glyph list, and every glyph of the
/// mapping is listed: each glyph is rasterized and packed exactly once,
/// however many codepoints share it.
pub proof fn lemma_distinct_glyphs(m: Seq<(u32, u16)>)
    ensures
        forall|k: int, l: int|
            0 <= k < l < distinct_of(m).len() ==> distinct_of(m)[k].0 != distinct_of(m)[l].0,
        forall|i: int| 0 <= i < m.len() ==> glyph_listed(distinct_of(m), #[trigger] m[i].1),
    decreases m.len(),
{
    if m.len() > 0 {
        let p = m.drop_last();
        lemma_distinct_glyphs(p);
        let d = distinct_of(p);
        assert forall|i: int| 0 <= i < m.len() implies glyph_listed(distinct_of(m), #[trigger] m[i].1) by {
            if i < p.len() {
                assert(m[i] == p[i]);
                assert(glyph_listed(d, p[i].1));
                let k = choose|k: int| 0 <= k < d.len() && #[trigger] d[k].0 == p[i].1;
                assert(distinct_of(m)[k].0 == m[i].1);
            } else if !glyph_listed(d, m.last().1) {
                assert(distinct_of(m)[d.len() as int].0 == m[i].1);
            }
        }
    }
}

/// Lists the distinct glyphs of a mapping in order of first use, each with
/// the first codepoint that uses it.
pub fn distinct_glyphs(mapping: &Vec<(u32, u16)>) -> (d: Vec<(u16, u32)>)
    ensures
        d@ == distinct_of(mapping@),
{
    let mut seen: Vec<bool> = Vec::new();
    while seen.len() < 0x10000
        invariant
            seen@.len() <= 0x10000,
            forall|j: int| 0 <= j < seen@.len() ==> !seen@[j],
        decreases 0x10000 - seen@.len(),
    {
        seen.push(false);
    }
    let mut d: Vec<(u16, u32)> = Vec::new();
    let n = mapping.len();
    let mut i: usize = 0;
    while i < n
        invariant
            n == mapping@.len(),
            i <= n,
            seen@.len() == 0x10000,
            d@ == distinct_of(mapping@.take(i as int)),
            forall|g: u16| seen@[g as int] == glyph_listed(d@, g),
        decreases n - i,
    {
        let (cp, g) = mapping[i];
        assert(mapping@.take(i + 1).drop_last() =~= mapping@.take(i as int));
        if !seen[g as usize] {
            seen.set(g as usize, true);
            let ghost before = d@;
            d.push((g, cp));
            proof {
                assert forall|h: u16| seen@[h as int] == glyph_listed(d@, h) by {
                    if h == g {
                        assert(d@[before.len() as int].0 == g);
                    } else {
                        if glyph_listed(d@, h) {
                            let k = choose|k: int| 0 <= k < d@.len() && #[trigger] d@[k].0 == h;
                            assert(before[k].0 == h);
                        }
                        if glyph_listed(before, h) {
                            let k = choose|k: int| 0 <= k < before.len() && #[trigger] before[k].0 == h;
                            assert(d@[k].0 == h);
                        }
                    }
                }
            }
        }
        i = i + 1;
    }
    assert(mapping@.take(n as int) =~= mapping@);
    d
}

/// Strictly increasing scalar values number at most `0x110000`.
pub proof fn lemma_mapping_len(m: Seq<(u32, u16)>)
    requires
        mapping_wf(m),
    ensures
        m.len() <= 0x110000,
{
    let keys = mapping_keys(m);
    assert forall|i: int| 0 <= i < keys.len() implies keys[i] >= i by {
        lemma_key_at_least_index(keys, i);
    }
    if m.len() > 0 {
        assert(is_scalar(m[m.len() - 1].0));
        assert(keys[m.len() - 1] >= m.len() - 1);
    }
}

proof fn lemma_key_at_least_index(keys: Seq<u32>, i: int)
    requires
        strictly_increasing(keys),
        0 <= i < keys.len(),
    ensures
        keys[i] >= i,
    decreases i,
{
    if i > 0 {
        lemma_key_at_least_index(keys, i - 1);
    }
}

/// A glyph as the rasterizer gives it: a row-major `width` by `height`
/// coverage raster (0..=255 per pixel), the rounded horizontal advance, and
/// the raster's left and bottom edges relative to the pen position.
#[derive(Debug, Clone)]
pub struct GlyphRaster {
    pub width: u32,
    pub height: u32,
    pub advance: i32,
    pub xmin: i32,
    pub ymin: i32,
    pub coverage: Vec<u8>,
}

/// A raster holds a coverage value for each of its pixels.
pub open spec fn raster_ok(r: GlyphRaster) -> bool {
    r.coverage@.len() >= (r.width as nat) * (r.height as nat)
}

/// The packed 1-bit form of a raster.
pub open spec fn raster_packed(r: GlyphRaster) -> Seq<u8> {
    packed_bits(r.coverage@, r.width as nat, r.height as nat)
}

/// The bitmap that glyph `g` gets from raster `r`: glyph index 0 is the
/// font's "no glyph" and always gets an empty bitmap.
pub open spec fn glyph_packed(g: u16, r: GlyphRaster) -> Seq<u8> {
    if g == 0 { Seq::empty() } else { raster_packed(r) }
}

/// Whether glyph `g` with raster `r` has no pixels: the "no glyph" index, or
/// a raster of zero width or height (as for a space).
pub open spec fn glyph_blank(g: u16, r: GlyphRaster) -> bool {
    g == 0 || r.width == 0 || r.height == 0
}

/// The width recorded for glyph `g` with raster `r` (0 when blank).
pub open spec fn glyph_width(g: u16, r: GlyphRaster) -> u32 {
    if glyph_blank(g, r) { 0 } else { r.width }
}

/// The height recorded for glyph `g` with raster `r` (0 when blank).
pub open spec fn glyph_height(g: u16, r: GlyphRaster) -> u32 {
    if glyph_blank(g, r) { 0 } else { r.height }
}

/// The bitmaps of the first `n` distinct glyphs, back to back.
pub open spec fn bitmap_blob(d: Seq<(u16, u32)>, rs: Seq<GlyphRaster>, n: nat) -> Seq<u8>
    decreases n,
{
    if n == 0 || n > rs.len() {
        Seq::empty()
    } else {
        bitmap_blob(d, rs, (n - 1) as nat) + glyph_packed(d[n - 1].0, rs[n - 1])
    }
}

/// Bitmap bytes of the first `n` distinct glyphs, added up.
pub open spec fn packed_total(d: Seq<(u16, u32)>, rs: Seq<GlyphRaster>, n: nat) -> nat
    decreases n,
{
    if n == 0 || n > rs.len() {
        0
    } else {
        packed_total(d, rs, (n - 1) as nat) + glyph_packed(d[n - 1].0, rs[n - 1]).len()
    }
}

/// Where the bitmap of distinct glyph `k` starts in the blob.
pub open spec fn blob_offset(d: Seq<(u16, u32)>, rs: Seq<GlyphRaster>, k: int) -> int {
    bitmap_blob(d, rs, k as nat).len() as int
}

/// The widest of the first `n` distinct glyphs (0 for none).
pub open spec fn max_width(d: Seq<(u16, u32)>, rs: Seq<GlyphRaster>, n: nat) -> u32
    decreases n,
{
    if n == 0 || n > rs.len() {
        0
    } else {
        let m = max_width(d, rs, (n - 1) as nat);
        let w = glyph_width(d[n - 1].0, rs[n - 1]);
        if w > m { w } else { m }
    }
}

/// The tallest of the first `n` distinct glyphs (0 for none).
pub open spec fn max_height(d: Seq<(u16, u32)>, rs: Seq<GlyphRaster>, n: nat) -> u32
    decreases n,
{
    if n == 0 || n > rs.len() {
        0
    } else {
        let m = max_height(d, rs, (n - 1) as nat);
        let h = glyph_height(d[n - 1].0, rs[n - 1]);
        if h > m { h } else { m }
    }
}

/// One packed glyph's slice of the blob, with the codepoint that labels it.
#[derive(Debug, Clone, Copy)]
pub struct PackedGlyph {
    pub codepoint: u32,
    pub offset: usize,
    pub len: usize,
}

/// The metrics of one codepoint's glyph and where its bitmap starts.
/// `y_offset` is the distance from the glyph's top row down to the baseline.
#[derive(Debug, Clone, Copy)]
pub struct GlyphEntry {
    pub offset: usize,
    pub width: u32,
    pub height: u32,
    pub x_advance: i32,
    pub x_offset: i32,
    pub y_offset: i64,
}

/// Entry `e` describes glyph `g` with raster `r`, whose bitmap starts at
/// `offset`; a blank glyph gets a zero by zero entry.
pub open spec fn entry_matches(e: GlyphEntry, g: u16, r: GlyphRaster, offset: int) -> bool {
    &&& e.offset == offset
    &&& e.width == glyph_width(g, r)
    &&& e.height == glyph_height(g, r)
    &&& e.x_advance == r.advance
    &&& e.x_offset == r.xmin
    &&& e.y_offset == r.ymin + r.height
}

/// The slot of the mapping whose codepoint is `fallback`, if any (the last
/// such slot; codepoints of a resolved mapping are distinct).
pub open spec fn fallback_slot(m: Seq<(u32, u16)>, fallback: Option<u32>) -> Option<usize>
    decreases m.len(),
{
    match fallback {
        Some(c) => if m.len() == 0 {
            None
        } else if m.last().0 == c {
            Some((m.len() - 1) as usize)
        } else {
            fallback_slot(m.drop_last(), fallback)
        },
        None => None,
    }
}

/// Everything a bake produces before it is written out.
#[derive(Debug, Clone)]
pub struct BakeData {
    pub bitmaps: Vec<u8>,
    pub packed_glyphs: Vec<PackedGlyph>,
    pub glyphs: Vec<GlyphEntry>,
    pub codepoints: Vec<u32>,
    pub ranges: Vec<GlyphRange>,
    pub fallback_index: Option<usize>,
    pub max_w: u32,
    pub max_h: u32,
}

/// `data` is the bake of mapping `m` whose distinct glyphs `d` rasterized
/// to `rs`, with fallback codepoint `fallback`.
pub open spec fn bake_of(
    data: BakeData,
    m: Seq<(u32, u16)>,
    d: Seq<(u16, u32)>,
    rs: Seq<GlyphRaster>,
    fallback: Option<u32>,
) -> bool {
    &&& data.bitmaps@ == bitmap_blob(d, rs, rs.len())
    &&& data.packed_glyphs@.len() == d.len()
    &&& forall|k: int|
        0 <= k < d.len() ==> {
            &&& (#[trigger] data.packed_glyphs@[k]).codepoint == d[k].1
            &&& data.packed_glyphs@[k].offset == blob_offset(d, rs, k)
            &&& data.packed_glyphs@[k].len == glyph_packed(d[k].0, rs[k]).len()
        }
    &&& data.glyphs@.len() == m.len()
    &&& forall|i: int|
        0 <= i < m.len() ==> exists|k: int|
            0 <= k < d.len() && d[k].0 == m[i].1 && entry_matches(
                #[trigger] data.glyphs@[i],
                d[k].0,
                rs[k],
                blob_offset(d, rs, k),
            )
    &&& data.codepoints@ == mapping_keys(m)
    &&& describes_codes(data.ranges@, data.codepoints@)
    &&& data.fallback_index == fallback_slot(m, fallback)
    &&& data.max_w == max_width(d, rs, rs.len())
    &&& data.max_h == max_height(d, rs, rs.len())
}

/// The blob of the first `k` glyphs is no longer than that of the first `n`.
pub proof fn lemma_blob_prefix(d: Seq<(u16, u32)>, rs: Seq<GlyphRaster>, k: nat, n: nat)
    requires
        k <= n <= rs.len(),
    ensures
        bitmap_blob(d, rs, k).len() <= bitmap_blob(d, rs, n).len(),
    decreases n - k,
{
    if k < n {
        lemma_blob_prefix(d, rs, k, (n - 1) as nat);
    }
}

proof fn lemma_blob_len(d: Seq<(u16, u32)>, rs: Seq<GlyphRaster>, n: nat)
    ensures
        bitmap_blob(d, rs, n).len() == packed_total(d, rs, n),
    decreases n,
{
    if n > 0 {
        lemma_blob_len(d, rs, (n - 1) as nat);
    }
}

/// A bake packs each distinct glyph exactly once: the glyphs it packs are
/// pairwise different, every glyph the mapping uses is among them, and the
/// blob holds exactly the packed bytes of those distinct glyphs, however
/// many codepoints share one.
pub proof fn lemma_packed_once(
    data: BakeData,
    m: Seq<(u32, u16)>,
    rs: Seq<GlyphRaster>,
    fallback: Option<u32>,
)
    requires
        rs.len() == distinct_of(m).len(),
        bake_of(data, m, distinct_of(m), rs, fallback),
    ensures
        forall|k: int, l: int|
            0 <= k < l < distinct_of(m).len() ==> distinct_of(m)[k].0 != distinct_of(m)[l].0,
        forall|i: int| 0 <= i < m.len() ==> glyph_listed(distinct_of(m), #[trigger] m[i].1),
        data.packed_glyphs@.len() == distinct_of(m).len(),
        data.bitmaps@.len() == packed_total(distinct_of(m), rs, rs.len()),
{
    lemma_distinct_glyphs(m);
    lemma_blob_len(distinct_of(m), rs, rs.len());
}

/// Two bakes of the same mapping from the same rasters agree on every
/// table they produce.
pub proof fn lemma_bake_unique(
    a: BakeData,
    b: BakeData,
    m: Seq<(u32, u16)>,
    rs: Seq<GlyphRaster>,
    fallback: Option<u32>,
)
    requires
        bake_of(a, m, distinct_of(m), rs, fallback),
        bake_of(b, m, distinct_of(m), rs, fallback),
    ensures
        a.bitmaps@ == b.bitmaps@,
        a.packed_glyphs@ == b.packed_glyphs@,
        a.glyphs@ == b.glyphs@,
        a.codepoints@ == b.codepoints@,
        a.ranges@ == b.ranges@,
        a.fallback_index == b.fallback_index,
        a.max_w == b.max_w,
        a.max_h == b.max_h,
{
    let d = distinct_of(m);
    lemma_distinct_glyphs(m);
    assert forall|k: int| 0 <= k < d.len() implies a.packed_glyphs@[k] == b.packed_glyphs@[k] by {
        assert(a.packed_glyphs@[k].codepoint == d[k].1);
        assert(b.packed_glyphs@[k].codepoint == d[k].1);
    }
    assert(a.packed_glyphs@ =~= b.packed_glyphs@);
    assert forall|i: int| 0 <= i < m.len() implies a.glyphs@[i] == b.glyphs@[i] by {
        let ka = choose|k: int|
            0 <= k < d.len() && d[k].0 == m[i].1 && entry_matches(#[trigger] a.glyphs@[i], d[k].0, rs[k], blob_offset(d, rs, k));
        let kb = choose|k: int|
            0 <= k < d.len() && d[k].0 == m[i].1 && entry_matches(#[trigger] b.glyphs@[i], d[k].0, rs[k], blob_offset(d, rs, k));
        if ka < kb {
            assert(d[ka].0 != d[kb].0);
        } else if kb < ka {
            assert(d[kb].0 != d[ka].0);
        }
    }
    assert(a.glyphs@ =~= b.glyphs@);
    lemma_range_table_unique(a.ranges@, b.ranges@, mapping_keys(m));
}

/// Packs each distinct glyph's raster once into the shared blob, gives every
/// codepoint of the mapping the metrics entry of its glyph, and builds the
/// range index over the codepoints. `rasters[k]` is the raster of glyph
/// `distinct[k]`.
pub fn build_glyph_data(
    mapping: &Vec<(u32, u16)>,
    distinct: &Vec<(u16, u32)>,
    rasters: &Vec<GlyphRaster>,
    fallback_cp: Option<u32>,
) -> (data: BakeData)
    requires
        mapping_wf(mapping@),
        distinct@ == distinct_of(mapping@),
        rasters@.len() == distinct@.len(),
        forall|k: int| 0 <= k < rasters@.len() ==> raster_ok(#[trigger] rasters@[k]),
    ensures
        bake_of(data, mapping@, distinct@, rasters@, fallback_cp),
        slices_in_blob(data),
{
    proof {
        lemma_distinct_glyphs(mapping@);
        lemma_mapping_len(mapping@);
    }
    let mut slot: Vec<usize> = Vec::new();
    while slot.len() < 0x10000
        invariant
            slot@.len() <= 0x10000,
        decreases 0x10000 - slot@.len(),
    {
        slot.push(0);
    }
    let nd = distinct.len();
    let mut bitmaps: Vec<u8> = Vec::new();
    let mut packed_glyphs: Vec<PackedGlyph> = Vec::new();
    let mut entries: Vec<GlyphEntry> = Vec::new();
    let mut max_w: u32 = 0;
    let mut max_h: u32 = 0;
    let mut k: usize = 0;
    while k < nd
        invariant
            nd == distinct@.len(),
            rasters@.len() == nd,
            forall|j: int| 0 <= j < rasters@.len() ==> raster_ok(#[trigger] rasters@[j]),
            forall|a: int, b: int| 0 <= a < b < nd ==> distinct@[a].0 != distinct@[b].0,
            k <= nd,
            slot@.len() == 0x10000,
            bitmaps@ == bitmap_blob(distinct@, rasters@, k as nat),
            packed_glyphs@.len() == k,
            entries@.len() == k,
            forall|j: int|
                0 <= j < k ==> {
                    &&& (#[trigger] packed_glyphs@[j]).codepoint == distinct@[j].1
                    &&& packed_glyphs@[j].offset == blob_offset(distinct@, rasters@, j)
                    &&& packed_glyphs@[j].len == glyph_packed(distinct@[j].0, rasters@[j]).len()
                },
            forall|j: int|
                0 <= j < k ==> entry_matches(
                    #[trigger] entries@[j],
                    distinct@[j].0,
                    rasters@[j],
                    blob_offset(distinct@, rasters@, j),
                ),
            forall|j: int| 0 <= j < k ==> slot@[(#[trigger] distinct@[j]).0 as int] == j,
            max_w == max_width(distinct@, rasters@, k as nat),
            max_h == max_height(distinct@, rasters@, k as nat),
        decreases nd - k,
    {
        let r = &rasters[k];
        let (g, cp) = distinct[k];
        let mut packed: Vec<u8> = if g == 0 {
            Vec::new()
        } else {
            pack_bitmap_1b(r.coverage.as_slice(), r.width, r.height).0
        };
        let blank = g == 0 || r.width == 0 || r.height == 0;
        let offset = bitmaps.len();
        let len = packed.len();
        bitmaps.append(&mut packed);
        packed_glyphs.push(PackedGlyph { codepoint: cp, offset, len });
        entries.push(
            GlyphEntry {
                offset,
                width: if blank { 0 } else { r.width },
                height: if blank { 0 } else { r.height },
                x_advance: r.advance,
                x_offset: r.xmin,
                y_offset: r.ymin as i64 + r.height as i64,
            },
        );
        let ghost old_slot = slot@;
        slot.set(g as usize, k);
        proof {
            assert forall|j: int| 0 <= j < k + 1 implies slot@[(#[trigger] distinct@[j]).0 as int] == j by {
                if j < k {
                    assert(distinct@[j].0 != distinct@[k as int].0);
                    assert(old_slot[distinct@[j].0 as int] == j);
                }
            }
        }
        if !blank && r.width > max_w {
            max_w = r.width;
        }
        if !blank && r.height > max_h {
            max_h = r.height;
        }
        k = k + 1;
    }
    let n = mapping.len();
    let mut glyphs: Vec<GlyphEntry> = Vec::new();
    let mut codepoints: Vec<u32> = Vec::new();
    let mut fallback_index: Option<usize> = None;
    let mut i: usize = 0;
    while i < n
        invariant
            n == mapping@.len(),
            nd == distinct@.len(),
            distinct@ == distinct_of(mapping@),
            forall|a: int| 0 <= a < n ==> glyph_listed(distinct@, #[trigger] mapping@[a].1),
            slot@.len() == 0x10000,
            entries@.len() == nd,
            forall|j: int|
                0 <= j < nd ==> entry_matches(
                    #[trigger] entries@[j],
                    distinct@[j].0,
                    rasters@[j],
                    blob_offset(distinct@, rasters@, j),
                ),
            forall|j: int| 0 <= j < nd ==> slot@[(#[trigger] distinct@[j]).0 as int] == j,
            i <= n,
            glyphs@.len() == i,
            forall|a: int|
                0 <= a < i ==> exists|j: int|
                    0 <= j < nd && distinct@[j].0 == mapping@[a].1 && entry_matches(
                        #[trigger] glyphs@[a],
                        distinct@[j].0,
                        rasters@[j],
                        blob_offset(distinct@, rasters@, j),
                    ),
            codepoints@ == mapping_keys(mapping@).take(i as int),
            fallback_index == fallback_slot(mapping@.take(i as int), fallback_cp),
        decreases n - i,
    {
        let (cp, g) = mapping[i];
        proof {
            assert(glyph_listed(distinct@, mapping@[i as int].1));
        }
        let ghost j = choose|j: int| 0 <= j < nd && #[trigger] distinct@[j].0 == g;
        let s = slot[g as usize];
        assert(s == j);
        let e = entries[s];
        glyphs.push(e);
        codepoints.push(cp);
        assert(codepoints@ =~= mapping_keys(mapping@).take(i + 1));
        assert(mapping@.take(i + 1).drop_last() =~= mapping@.take(i as int));
        match fallback_cp {
            Some(f) => {
                if cp == f {
                    fallback_index = Some(i);
                }
            },
            None => {},
        }
        i = i + 1;
    }
    assert(mapping@.take(n as int) =~= mapping@);
    assert(mapping_keys(mapping@).take(n as int) =~= mapping_keys(mapping@));
    assert forall|k: int| 0 <= k < nd implies (#[trigger] packed_glyphs@[k]).offset + packed_glyphs@[k].len
        <= bitmaps@.len() by {
        lemma_blob_prefix(distinct@, rasters@, (k + 1) as nat, nd as nat);
    }
    let ranges = build_ranges(codepoints.as_slice());
    BakeData { bitmaps, packed_glyphs, glyphs, codepoints, ranges, fallback_index, max_w, max_h }
}

} // verus!
