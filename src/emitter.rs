//! Serialization of baked glyph data into C++ module source: the bitmap
//! blob, the glyph table, the range table, and the root `Font` record.
use vstd::prelude::*;
use crate::bake::{bake_of, distinct_of, lemma_bake_unique, BakeData, GlyphEntry, GlyphRaster, PackedGlyph};
use crate::job::FontJob;
use crate::ranges::GlyphRange;
use crate::text::{
    chars_to_string, dec, dec_signed, numeral, push_dec, push_dec_signed, push_numeral, push_str,
    same_text, is_white_space, lemma_blank_trims_to_empty, trim_of, trim_str,
};

verus! {

/// How one bitmap byte is written for number style `style`: decimal for
/// "dec", eight binary digits after "0b" for "bin", else two upper-case hex
/// digits after "0x".
pub open spec fn byte_literal(b: u8, style: Seq<char>) -> Seq<char> {
    if style == "dec"@ {
        dec(b as nat)
    } else if style == "bin"@ {
        "0b"@ + numeral(b as nat, 2, 8)
    } else {
        "0x"@ + numeral(b as nat, 16, 2)
    }
}

pub(crate) fn push_byte_literal(out: &mut Vec<char>, b: u8, style: &str)
    ensures
        final(out)@ == old(out)@ + byte_literal(b, style@),
{
    if same_text(style, "dec") {
        push_dec(out, b as u64);
    } else if same_text(style, "bin") {
        push_str(out, "0b");
        push_numeral(out, b as u64, 2, 8);
        assert(final(out)@ =~= old(out)@ + byte_literal(b, style@));
    } else {
        push_str(out, "0x");
        push_numeral(out, b as u64, 16, 2);
        assert(final(out)@ =~= old(out)@ + byte_literal(b, style@));
    }
}

/// Writes one bitmap byte in number style `number_format`.
pub fn format_byte(value: u8, number_format: &str) -> (r: String)
    ensures
        r@ == byte_literal(value, number_format@),
{
    let mut out: Vec<char> = Vec::new();
    push_byte_literal(&mut out, value, number_format);
    chars_to_string(&out)
}

/// The character that labels a codepoint in comments: itself when printable
/// ASCII (32..=126), else '?'.
pub open spec fn display_char_of(codepoint: u32) -> char {
    if 32 <= codepoint && codepoint <= 126 {
        (codepoint as u8) as char
    } else {
        '?'
    }
}

/// The character that labels a codepoint in comments.
pub fn display_char(codepoint: u32) -> (c: char)
    ensures
        c == display_char_of(codepoint),
{
    if 32 <= codepoint && codepoint <= 126 {
        (codepoint as u8) as char
    } else {
        '?'
    }
}

/// The output names after trimming: the module is named by the module name,
/// else the export name, else "font_module"; the font is exported as the
/// export name, else "font".
pub open spec fn module_name_of(module_trimmed: Seq<char>, export_trimmed: Seq<char>) -> Seq<char> {
    if module_trimmed.len() > 0 {
        module_trimmed
    } else if export_trimmed.len() > 0 {
        export_trimmed
    } else {
        "font_module"@
    }
}

/// The name the font record is exported under, from the trimmed export name.
pub open spec fn export_name_of(export_trimmed: Seq<char>) -> Seq<char> {
    if export_trimmed.len() > 0 { export_trimmed } else { "font"@ }
}

/// Blank names fall back to their defaults: a module name and an export
/// name of white space only give the module "font_module" and the font
/// "font".
pub proof fn lemma_blank_names_default(module_name: Seq<char>, export_name: Seq<char>)
    requires
        forall|i: int| 0 <= i < module_name.len() ==> is_white_space(#[trigger] module_name[i]),
        forall|i: int| 0 <= i < export_name.len() ==> is_white_space(#[trigger] export_name[i]),
    ensures
        module_name_of(trim_of(module_name), trim_of(export_name)) == "font_module"@,
        export_name_of(trim_of(export_name)) == "font"@,
{
    lemma_blank_trims_to_empty(module_name);
    lemma_blank_trims_to_empty(export_name);
}

/// Whether every packed glyph's slice lies inside the blob.
pub open spec fn slices_in_blob(data: BakeData) -> bool {
    forall|k: int|
        0 <= k < data.packed_glyphs@.len() ==> (#[trigger] data.packed_glyphs@[k]).offset
            + data.packed_glyphs@[k].len <= data.bitmaps@.len()
}

/// The lines that write bytes `bs[0..n]`, one per byte.
pub open spec fn byte_lines(bs: Seq<u8>, style: Seq<char>, n: nat) -> Seq<char>
    decreases n,
{
    if n == 0 || n > bs.len() {
        Seq::empty()
    } else {
        byte_lines(bs, style, (n - 1) as nat) + "    "@ + byte_literal(bs[n - 1], style) + ",\n"@
    }
}

/// The bytes of one packed glyph's slice.
pub open spec fn glyph_bytes(data: BakeData, p: PackedGlyph) -> Seq<u8> {
    data.bitmaps@.subrange(p.offset as int, p.offset + p.len)
}

/// The comment that opens a glyph's bytes in the blob.
pub open spec fn blob_comment(cp: u32) -> Seq<char> {
    "    // code "@ + dec(cp as nat) + " ('"@ + seq![display_char_of(cp)] + "')\n"@
}

/// The blob lines of packed glyph `p`.
pub open spec fn blob_block(data: BakeData, p: PackedGlyph, style: Seq<char>, comments: bool) -> Seq<char> {
    (if comments { blob_comment(p.codepoint) } else { Seq::empty() }) + byte_lines(
        glyph_bytes(data, p),
        style,
        p.len as nat,
    )
}

/// The blob lines of the first `n` packed glyphs.
pub open spec fn blob_blocks(data: BakeData, style: Seq<char>, comments: bool, n: nat) -> Seq<char>
    decreases n,
{
    if n == 0 || n > data.packed_glyphs@.len() {
        Seq::empty()
    } else {
        blob_blocks(data, style, comments, (n - 1) as nat) + blob_block(
            data,
            data.packed_glyphs@[n - 1],
            style,
            comments,
        )
    }
}

/// The codepoint of glyph-table slot `i` (0 where the list is short).
pub open spec fn slot_codepoint(data: BakeData, i: int) -> u32 {
    if 0 <= i < data.codepoints@.len() { data.codepoints@[i] } else { 0 }
}

/// One glyph-table row.
pub open spec fn table_row(e: GlyphEntry) -> Seq<char> {
    "    { glyph_bitmaps + "@ + dec(e.offset as nat) + ", "@ + dec(e.width as nat) + ", "@ + dec(
        e.height as nat,
    ) + ", "@ + dec_signed(e.x_advance as int) + ", "@ + dec_signed(e.x_offset as int) + ", "@
        + dec_signed(e.y_offset as int) + " },\n"@
}

/// The comment above a glyph-table row.
pub open spec fn table_comment(cp: u32) -> Seq<char> {
    "    // "@ + seq![display_char_of(cp)] + " (code "@ + dec(cp as nat) + ")\n"@
}

/// The glyph-table lines of the first `n` entries.
pub open spec fn table_lines(data: BakeData, comments: bool, n: nat) -> Seq<char>
    decreases n,
{
    if n == 0 || n > data.glyphs@.len() {
        Seq::empty()
    } else {
        table_lines(data, comments, (n - 1) as nat) + (if comments {
            table_comment(slot_codepoint(data, n - 1))
        } else {
            Seq::empty()
        }) + table_row(data.glyphs@[n - 1])
    }
}

/// One range-table row.
pub open spec fn range_row(r: GlyphRange) -> Seq<char> {
    "    { "@ + dec(r.range_start as nat) + ", "@ + dec(r.range_length as nat) + ", "@ + dec(
        r.glyph_id_start as nat,
    ) + " },\n"@
}

/// The range-table lines of the first `n` ranges.
pub open spec fn range_lines(rs: Seq<GlyphRange>, n: nat) -> Seq<char>
    decreases n,
{
    if n == 0 || n > rs.len() {
        Seq::empty()
    } else {
        range_lines(rs, (n - 1) as nat) + range_row(rs[n - 1])
    }
}

/// The fallback line of the root record.
pub open spec fn fallback_line(idx: Option<usize>) -> Seq<char> {
    match idx {
        Some(i) => "    .fallback_glyph = &glyph_table["@ + dec(i as nat) + "],\n"@,
        None => "    .fallback_glyph = nullptr,\n"@,
    }
}

/// The module header, up to the opening of the bitmap array.
pub open spec fn module_head(module_name: Seq<char>) -> Seq<char> {
    "module;\n"@ + "#include <cstdint>\n"@ + "#include <span>\n"@ + "export module "@ + module_name
        + ";\n\n"@ + "import ui_font;\n\n"@ + "// Bitmap format: 1-bit packed, row-major, MSB-first.\n"@
        + "// stride = (width + 7) / 8\n"@ + "// byte_index = y * stride + (x >> 3)\n"@
        + "// bit_mask   = 0x80 >> (x & 7)\n\n"@ + "static constexpr uint8_t glyph_bitmaps[] = {\n"@
}

/// The root `Font` record.
pub open spec fn module_root(export_name: Seq<char>, fallback_index: Option<usize>, line_height: i32, baseline: i32) -> Seq<char> {
    "export constexpr Font "@ + export_name + " = {\n"@ + "    .table = glyph_table,\n"@
        + "    .ranges = glyph_ranges,\n"@ + fallback_line(fallback_index) + "    .line_height = "@
        + dec_signed(line_height as int) + ",\n"@ + "    .baseline = "@ + dec_signed(baseline as int)
        + "\n"@ + "};\n"@
}

/// The whole module text: header, bitmap blob, glyph table, range table
/// and root record, in that order.
pub open spec fn module_text(
    module_name: Seq<char>,
    export_name: Seq<char>,
    style: Seq<char>,
    comments: bool,
    data: BakeData,
    line_height: i32,
    baseline: i32,
) -> Seq<char> {
    module_head(module_name) + blob_blocks(data, style, comments, data.packed_glyphs@.len())
        + "};\n\n"@ + "static constexpr Glyph glyph_table[] = {\n"@ + table_lines(
        data,
        comments,
        data.glyphs@.len(),
    ) + "};\n\n"@ + "static constexpr GlyphRange glyph_ranges[] = {\n"@ + range_lines(
        data.ranges@,
        data.ranges@.len(),
    ) + "};\n\n"@ + module_root(export_name, data.fallback_index, line_height, baseline)
}

proof fn lemma_blob_blocks_same(a: BakeData, b: BakeData, style: Seq<char>, comments: bool, n: nat)
    requires
        a.bitmaps@ == b.bitmaps@,
        a.packed_glyphs@ == b.packed_glyphs@,
    ensures
        blob_blocks(a, style, comments, n) == blob_blocks(b, style, comments, n),
    decreases n,
{
    if n > 0 {
        lemma_blob_blocks_same(a, b, style, comments, (n - 1) as nat);
    }
}

proof fn lemma_table_lines_same(a: BakeData, b: BakeData, comments: bool, n: nat)
    requires
        a.glyphs@ == b.glyphs@,
        a.codepoints@ == b.codepoints@,
    ensures
        table_lines(a, comments, n) == table_lines(b, comments, n),
    decreases n,
{
    if n > 0 {
        lemma_table_lines_same(a, b, comments, (n - 1) as nat);
    }
}

/// Baking is repeatable: two bakes of the same resolved mapping from the
/// same glyph rasters, written with the same names and options, give the
/// same module text, character for character.
pub proof fn lemma_bake_text_repeatable(
    a: BakeData,
    b: BakeData,
    m: Seq<(u32, u16)>,
    rs: Seq<GlyphRaster>,
    fallback: Option<u32>,
    module_name: Seq<char>,
    export_name: Seq<char>,
    style: Seq<char>,
    comments: bool,
    line_height: i32,
    baseline: i32,
)
    requires
        bake_of(a, m, distinct_of(m), rs, fallback),
        bake_of(b, m, distinct_of(m), rs, fallback),
    ensures
        module_text(module_name, export_name, style, comments, a, line_height, baseline) == module_text(
            module_name,
            export_name,
            style,
            comments,
            b,
            line_height,
            baseline,
        ),
{
    lemma_bake_unique(a, b, m, rs, fallback);
    lemma_blob_blocks_same(a, b, style, comments, a.packed_glyphs@.len());
    lemma_table_lines_same(a, b, comments, a.glyphs@.len());
}

fn push_blob(out: &mut Vec<char>, data: &BakeData, style: &str, comments: bool)
    requires
        slices_in_blob(*data),
    ensures
        final(out)@ == old(out)@ + blob_blocks(*data, style@, comments, data.packed_glyphs@.len()),
{
    let n = data.packed_glyphs.len();
    let mut k: usize = 0;
    while k < n
        invariant
            n == data.packed_glyphs@.len(),
            slices_in_blob(*data),
            k <= n,
            out@ == old(out)@ + blob_blocks(*data, style@, comments, k as nat),
        decreases n - k,
    {
        let p = data.packed_glyphs[k];
        let ghost start = out@;
        if comments {
            push_str(out, "    // code ");
            push_dec(out, p.codepoint as u64);
            push_str(out, " ('");
            out.push(display_char(p.codepoint));
            push_str(out, "')\n");
            assert(out@ =~= start + blob_comment(p.codepoint));
        }
        let ghost mid = out@;
        assert(data.packed_glyphs@[k as int] == p);
        let blen = data.bitmaps.len();
        assert(p.offset + p.len <= blen);
        let end = p.offset + p.len;
        let mut j: usize = p.offset;
        while j < end
            invariant
                p.offset <= j <= end,
                end == p.offset + p.len,
                end <= data.bitmaps@.len(),
                out@ == mid + byte_lines(glyph_bytes(*data, p), style@, (j - p.offset) as nat),
            decreases end - j,
        {
            push_str(out, "    ");
            push_byte_literal(out, data.bitmaps[j], style);
            push_str(out, ",\n");
            assert(glyph_bytes(*data, p)[(j - p.offset) as int] == data.bitmaps@[j as int]);
            j = j + 1;
            assert(out@ =~= mid + byte_lines(glyph_bytes(*data, p), style@, (j - p.offset) as nat));
        }
        k = k + 1;
        assert(out@ =~= old(out)@ + blob_blocks(*data, style@, comments, k as nat));
    }
}

pub(crate) fn push_table_comment(out: &mut Vec<char>, cp: u32)
    ensures
        final(out)@ == old(out)@ + table_comment(cp),
{
    push_str(out, "    // ");
    out.push(display_char(cp));
    push_str(out, " (code ");
    push_dec(out, cp as u64);
    push_str(out, ")\n");
    assert(final(out)@ =~= old(out)@ + table_comment(cp));
}

pub(crate) fn push_table_row(out: &mut Vec<char>, e: GlyphEntry)
    ensures
        final(out)@ == old(out)@ + table_row(e),
{
    push_str(out, "    { glyph_bitmaps + ");
    push_dec(out, e.offset as u64);
    push_str(out, ", ");
    push_dec(out, e.width as u64);
    push_str(out, ", ");
    push_dec(out, e.height as u64);
    push_str(out, ", ");
    push_dec_signed(out, e.x_advance as i64);
    push_str(out, ", ");
    push_dec_signed(out, e.x_offset as i64);
    push_str(out, ", ");
    push_dec_signed(out, e.y_offset);
    push_str(out, " },\n");
    assert(final(out)@ =~= old(out)@ + table_row(e));
}

fn push_table(out: &mut Vec<char>, data: &BakeData, comments: bool)
    ensures
        final(out)@ == old(out)@ + table_lines(*data, comments, data.glyphs@.len()),
{
    let n = data.glyphs.len();
    let mut i: usize = 0;
    while i < n
        invariant
            n == data.glyphs@.len(),
            i <= n,
            out@ == old(out)@ + table_lines(*data, comments, i as nat),
        decreases n - i,
    {
        let e = data.glyphs[i];
        let ghost start = out@;
        if comments {
            let cp: u32 = if i < data.codepoints.len() { data.codepoints[i] } else { 0 };
            push_table_comment(out, cp);
        }
        let ghost mid = out@;
        push_table_row(out, e);
        assert(mid == start + (if comments {
            table_comment(slot_codepoint(*data, i as int))
        } else {
            Seq::empty()
        }));
        i = i + 1;
        assert(out@ =~= old(out)@ + table_lines(*data, comments, i as nat));
    }
}

pub(crate) fn push_ranges(out: &mut Vec<char>, ranges: &Vec<GlyphRange>)
    ensures
        final(out)@ == old(out)@ + range_lines(ranges@, ranges@.len()),
{
    let n = ranges.len();
    let mut i: usize = 0;
    while i < n
        invariant
            n == ranges@.len(),
            i <= n,
            out@ == old(out)@ + range_lines(ranges@, i as nat),
        decreases n - i,
    {
        let r = ranges[i];
        let ghost start = out@;
        push_str(out, "    { ");
        push_dec(out, r.range_start as u64);
        push_str(out, ", ");
        push_dec(out, r.range_length as u64);
        push_str(out, ", ");
        push_dec(out, r.glyph_id_start as u64);
        push_str(out, " },\n");
        assert(out@ =~= start + range_row(r));
        i = i + 1;
        assert(out@ =~= old(out)@ + range_lines(ranges@, i as nat));
    }
}

fn push_head(out: &mut Vec<char>, module_name: &str)
    ensures
        final(out)@ == old(out)@ + module_head(module_name@),
{
    push_str(out, "module;\n");
    push_str(out, "#include <cstdint>\n");
    push_str(out, "#include <span>\n");
    push_str(out, "export module ");
    push_str(out, module_name);
    push_str(out, ";\n\n");
    push_str(out, "import ui_font;\n\n");
    push_str(out, "// Bitmap format: 1-bit packed, row-major, MSB-first.\n");
    push_str(out, "// stride = (width + 7) / 8\n");
    push_str(out, "// byte_index = y * stride + (x >> 3)\n");
    push_str(out, "// bit_mask   = 0x80 >> (x & 7)\n\n");
    push_str(out, "static constexpr uint8_t glyph_bitmaps[] = {\n");
    assert(final(out)@ =~= old(out)@ + module_head(module_name@));
}

pub(crate) fn push_root(
    out: &mut Vec<char>,
    export_name: &str,
    fallback_index: Option<usize>,
    line_height: i32,
    baseline: i32,
)
    ensures
        final(out)@ == old(out)@ + module_root(export_name@, fallback_index, line_height, baseline),
{
    push_str(out, "export constexpr Font ");
    push_str(out, export_name);
    push_str(out, " = {\n");
    push_str(out, "    .table = glyph_table,\n");
    push_str(out, "    .ranges = glyph_ranges,\n");
    let ghost before = out@;
    match fallback_index {
        Some(idx) => {
            push_str(out, "    .fallback_glyph = &glyph_table[");
            push_dec(out, idx as u64);
            push_str(out, "],\n");
        },
        None => {
            push_str(out, "    .fallback_glyph = nullptr,\n");
        },
    }
    assert(out@ =~= before + fallback_line(fallback_index));
    push_str(out, "    .line_height = ");
    push_dec_signed(out, line_height as i64);
    push_str(out, ",\n");
    push_str(out, "    .baseline = ");
    push_dec_signed(out, baseline as i64);
    push_str(out, "\n");
    push_str(out, "};\n");
    assert(final(out)@ =~= old(out)@ + module_root(export_name@, fallback_index, line_height, baseline));
}

/// Writes the module for already trimmed module and export names.
pub fn render_module(
    module_trimmed: &str,
    export_trimmed: &str,
    number_format: &str,
    with_comments: bool,
    data: &BakeData,
    line_height: i32,
    baseline: i32,
) -> (r: String)
    requires
        slices_in_blob(*data),
    ensures
        r@ == module_text(
            module_name_of(module_trimmed@, export_trimmed@),
            export_name_of(export_trimmed@),
            number_format@,
            with_comments,
            *data,
            line_height,
            baseline,
        ),
{
    let module_name: &str = if module_trimmed.unicode_len() > 0 {
        module_trimmed
    } else if export_trimmed.unicode_len() > 0 {
        export_trimmed
    } else {
        "font_module"
    };
    let export_name: &str = if export_trimmed.unicode_len() > 0 {
        export_trimmed
    } else {
        "font"
    };
    let mut out: Vec<char> = Vec::new();
    push_head(&mut out, module_name);
    push_blob(&mut out, data, number_format, with_comments);
    push_str(&mut out, "};\n\n");
    push_str(&mut out, "static constexpr Glyph glyph_table[] = {\n");
    push_table(&mut out, data, with_comments);
    push_str(&mut out, "};\n\n");
    push_str(&mut out, "static constexpr GlyphRange glyph_ranges[] = {\n");
    push_ranges(&mut out, &data.ranges);
    push_str(&mut out, "};\n\n");
    push_root(&mut out, export_name, data.fallback_index, line_height, baseline);
    assert(out@ =~= module_text(
        module_name_of(module_trimmed@, export_trimmed@),
        export_name_of(export_trimmed@),
        number_format@,
        with_comments,
        *data,
        line_height,
        baseline,
    ));
    chars_to_string(&out)
}

/// Writes the job's baked data as C++ module source, naming the module and
/// the exported font from the job's trimmed names.
pub fn generate_cpp_module(job: &FontJob, data: &BakeData, line_height: i32, baseline: i32) -> (r: String)
    requires
        slices_in_blob(*data),
    ensures
        r@ == module_text(
            module_name_of(trim_of(job.module_name@), trim_of(job.export_name@)),
            export_name_of(trim_of(job.export_name@)),
            job.number_format@,
            job.with_comments,
            *data,
            line_height,
            baseline,
        ),
{
    render_module(
        trim_str(job.module_name.as_str()),
        trim_str(job.export_name.as_str()),
        job.number_format.as_str(),
        job.with_comments,
        data,
        line_height,
        baseline,
    )
}

} // verus!
