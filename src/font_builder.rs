//! The range-string front end and the per-codepoint module writer: a
//! comma-separated list of decimal codepoints and `a-b` ranges becomes a
//! sorted codepoint list, and rendered glyphs become a `font_generated`
//! module.
use vstd::prelude::*;
use crate::bake::GlyphEntry;
use crate::codepoints::{merge_interval, strictly_increasing};
use crate::emitter::{
    blob_comment, byte_lines, module_root, push_byte_literal, push_ranges, push_root,
    push_table_comment, push_table_row, range_lines, table_comment, table_row,
};
use crate::packer::{pack_bitmap_1b, packed_bits};
pub use crate::ranges::GlyphRange;
use crate::ranges::{build_ranges, describes_codes};
use crate::text::{chars_to_string, push_dec, push_str, trim_of, trim_str};

verus! {

/// An inclusive codepoint range.
#[derive(Debug, Clone, Copy)]
pub struct CharRange {
    pub start: u32,
    pub end: u32,
}

/// `s` cut at every `sep`: one more piece than there are separators.
pub open spec fn split_on(s: Seq<char>, sep: char) -> Seq<Seq<char>>
    decreases s.len(),
{
    if s.len() == 0 {
        seq![Seq::empty()]
    } else {
        let prev = split_on(s.drop_last(), sep);
        if s.last() == sep {
            prev.push(Seq::empty())
        } else {
            prev.update(prev.len() - 1, prev.last().push(s.last()))
        }
    }
}

/// The value of a string of decimal digits.
pub open spec fn digits_value(d: Seq<char>) -> nat
    decreases d.len(),
{
    if d.len() == 0 {
        0
    } else {
        digits_value(d.drop_last()) * 10 + ((d.last() as u32) - ('0' as u32)) as nat
    }
}

/// Whether every character is an ASCII digit.
pub open spec fn all_digits(d: Seq<char>) -> bool {
    forall|i: int| 0 <= i < d.len() ==> '0' <= #[trigger] d[i] && d[i] <= '9'
}

/// The digits part of an unsigned numeral: all after an optional '+'.
pub open spec fn unsigned_digits(s: Seq<char>) -> Seq<char> {
    if s.len() > 0 && s[0] == '+' { s.skip(1) } else { s }
}

/// Decimal `u32` syntax: an optional '+', then one or more ASCII digits,
/// whose value fits in 32 bits.
pub open spec fn parse_u32_of(s: Seq<char>) -> Option<u32> {
    let d = unsigned_digits(s);
    if d.len() > 0 && all_digits(d) && digits_value(d) <= u32::MAX {
        Some(digits_value(d) as u32)
    } else {
        None
    }
}

proof fn lemma_digits_value_grows(d: Seq<char>, k: int)
    requires
        all_digits(d),
        0 <= k <= d.len(),
    ensures
        digits_value(d.take(k)) <= digits_value(d),
    decreases d.len() - k,
{
    if k < d.len() {
        lemma_digits_value_grows(d, k + 1);
        assert(d.take(k + 1).drop_last() =~= d.take(k));
    } else {
        assert(d.take(k) =~= d);
    }
}

/// Reads a decimal `u32`: an optional '+' and one or more digits, within
/// range; anything else is refused.
pub fn parse_u32(s: &str) -> (r: Option<u32>)
    ensures
        r == parse_u32_of(s@),
{
    let n = s.unicode_len();
    let mut i: usize = 0;
    if n > 0 && s.get_char(0) == '+' {
        i = 1;
    }
    let start = i;
    let ghost d = unsigned_digits(s@);
    assert(d =~= s@.skip(start as int));
    if start == n {
        return None;
    }
    let mut v: u64 = 0;
    while i < n
        invariant
            n == s@.len(),
            start <= i <= n,
            d == s@.skip(start as int),
            d == unsigned_digits(s@),
            start < n,
            all_digits(d.take(i - start)),
            v == digits_value(d.take(i - start)),
            v <= u32::MAX,
        decreases n - i,
    {
        let c = s.get_char(i);
        if c < '0' || c > '9' {
            assert(!all_digits(d)) by {
                assert(d[i - start] == c);
            }
            assert(parse_u32_of(s@) is None);
            return None;
        }
        let ghost k = i - start;
        assert(d.take(k + 1).drop_last() =~= d.take(k));
        assert(d.take(k + 1).last() == c);
        let nv = v * 10 + ((c as u32) - ('0' as u32)) as u64;
        assert(nv == digits_value(d.take(k + 1)));
        i = i + 1;
        assert(all_digits(d.take(i - start))) by {
            assert forall|j: int| 0 <= j < d.take(i - start).len() implies '0' <= #[trigger] d.take(i - start)[j]
                && d.take(i - start)[j] <= '9' by {
                if j < k {
                    assert(d.take(k)[j] == d.take(i - start)[j]);
                }
            }
        }
        if nv > u32::MAX as u64 {
            proof {
                if all_digits(d) {
                    lemma_digits_value_grows(d, i - start);
                    assert(digits_value(d) > u32::MAX);
                }
                assert(parse_u32_of(s@) is None);
            }
            return None;
        }
        v = nv;
    }
    assert(d.take(n - start) =~= d);
    Some(v as u32)
}

/// Cuts `s` at every `sep`.
pub fn split_text(s: &str, sep: char) -> (r: Vec<String>)
    ensures
        r@.map_values(|p: String| p@) == split_on(s@, sep),
{
    let n = s.unicode_len();
    let mut pieces: Vec<String> = Vec::new();
    let mut cur: Vec<char> = Vec::new();
    let mut i: usize = 0;
    assert(s@.take(0) =~= Seq::<char>::empty());
    assert(pieces@.map_values(|p: String| p@).push(cur@) =~= split_on(s@.take(0), sep));
    while i < n
        invariant
            n == s@.len(),
            i <= n,
            pieces@.map_values(|p: String| p@).push(cur@) == split_on(s@.take(i as int), sep),
        decreases n - i,
    {
        let c = s.get_char(i);
        let ghost before = pieces@.map_values(|p: String| p@).push(cur@);
        assert(s@.take(i + 1).drop_last() =~= s@.take(i as int));
        if c == sep {
            let piece = chars_to_string(&cur);
            pieces.push(piece);
            cur = Vec::new();
            assert(pieces@.map_values(|p: String| p@).push(cur@) =~= before.push(Seq::empty()));
        } else {
            cur.push(c);
            assert(pieces@.map_values(|p: String| p@).push(cur@) =~= before.update(
                before.len() - 1,
                before.last().push(c),
            ));
        }
        i = i + 1;
    }
    assert(s@.take(n as int) =~= s@);
    let last = chars_to_string(&cur);
    pieces.push(last);
    assert(pieces@.map_values(|p: String| p@) =~= split_on(s@, sep));
    pieces
}

/// What one trimmed item of a range list stands for: the codepoints
/// `a ..= b` of an `a-b` range or of a single number `a` (then `b == a`),
/// or the message that refuses it. A range that starts after it ends is
/// refused.
pub open spec fn part_result(t: Seq<char>) -> Result<(u32, u32), Seq<char>> {
    let ps = split_on(t, '-');
    if ps.len() == 1 {
        match parse_u32_of(t) {
            Some(c) => Ok((c, c)),
            None => Err("Invalid number: "@ + t),
        }
    } else if ps.len() != 2 {
        Err("Invalid range format: "@ + t)
    } else {
        match parse_u32_of(ps[0]) {
            None => Err("Invalid number: "@ + ps[0]),
            Some(a) => match parse_u32_of(ps[1]) {
                None => Err("Invalid number: "@ + ps[1]),
                Some(b) => if a > b {
                    Err("Invalid range: start must be <= end"@)
                } else {
                    Ok((a, b))
                },
            },
        }
    }
}

/// Whether item `t` of a range list covers codepoint `x`.
pub open spec fn part_covers(t: Seq<char>, x: u32) -> bool {
    match part_result(t) {
        Ok(p) => p.0 <= x && x <= p.1,
        Err(_) => false,
    }
}

fn message_with(prefix: &str, subject: &str) -> (r: String)
    ensures
        r@ == prefix@ + subject@,
{
    let mut out: Vec<char> = Vec::new();
    push_str(&mut out, prefix);
    push_str(&mut out, subject);
    chars_to_string(&out)
}

impl CharRange {
    /// Reads one already trimmed item of a range list: `a-b` or a single
    /// decimal number.
    pub fn parse_part(t: &str) -> (r: Result<(u32, u32), String>)
        ensures
            match r {
                Ok(p) => part_result(t@) == Ok::<(u32, u32), Seq<char>>(p),
                Err(e) => part_result(t@) == Err::<(u32, u32), Seq<char>>(e@),
            },
    {
        let ps = split_text(t, '-');
        proof {
            assert(ps@.map_values(|p: String| p@).len() == ps@.len());
        }
        if ps.len() == 1 {
            match parse_u32(t) {
                Some(c) => Ok((c, c)),
                None => Err(message_with("Invalid number: ", t)),
            }
        } else if ps.len() != 2 {
            Err(message_with("Invalid range format: ", t))
        } else {
            proof {
                assert(ps@.map_values(|p: String| p@)[0] == ps@[0]@);
                assert(ps@.map_values(|p: String| p@)[1] == ps@[1]@);
            }
            match parse_u32(ps[0].as_str()) {
                None => Err(message_with("Invalid number: ", ps[0].as_str())),
                Some(a) => match parse_u32(ps[1].as_str()) {
                    None => Err(message_with("Invalid number: ", ps[1].as_str())),
                    Some(b) => if a > b {
                        Err(String::from_str("Invalid range: start must be <= end"))
                    } else {
                        Ok((a, b))
                    },
                },
            }
        }
    }

    /// Reads a comma-separated list of decimal codepoints and inclusive
    /// `a-b` ranges (items trimmed, pieces of a range not) into the covered
    /// codepoints, ascending and without repeats. The first item that does
    /// not read, or a range that starts after it ends, refuses the whole
    /// list with its message.
    pub fn parse(range_str: &str) -> (r: Result<Vec<u32>, String>)
        ensures
            match r {
                Ok(v) => {
                    &&& forall|i: int|
                        0 <= i < split_on(range_str@, ',').len() ==> (#[trigger] part_result(
                            trim_of(split_on(range_str@, ',')[i]),
                        )) is Ok
                    &&& strictly_increasing(v@)
                    &&& forall|x: u32|
                        v@.contains(x) <==> exists|i: int|
                            0 <= i < split_on(range_str@, ',').len() && #[trigger] part_covers(
                                trim_of(split_on(range_str@, ',')[i]),
                                x,
                            )
                },
                Err(e) => exists|i: int|
                    0 <= i < split_on(range_str@, ',').len() && part_result(
                        trim_of(split_on(range_str@, ',')[i]),
                    ) == Err::<(u32, u32), Seq<char>>(e@) && forall|j: int|
                        0 <= j < i ==> (#[trigger] part_result(
                            trim_of(split_on(range_str@, ',')[j]),
                        )) is Ok,
            },
    {
        let parts = split_text(range_str, ',');
        let ghost ps = split_on(range_str@, ',');
        let n = parts.len();
        let mut v: Vec<u32> = Vec::new();
        let mut i: usize = 0;
        while i < n
            invariant
                n == parts@.len(),
                ps == split_on(range_str@, ','),
                parts@.map_values(|p: String| p@) == ps,
                i <= n,
                forall|j: int| 0 <= j < i ==> (#[trigger] part_result(trim_of(ps[j]))) is Ok,
                strictly_increasing(v@),
                forall|x: u32|
                    v@.contains(x) <==> exists|j: int| 0 <= j < i && #[trigger] part_covers(trim_of(ps[j]), x),
            decreases n - i,
        {
            assert(ps[i as int] == parts@[i as int]@);
            let t = trim_str(parts[i].as_str());
            match CharRange::parse_part(t) {
                Err(e) => {
                    return Err(e);
                },
                Ok((a, b)) => {
                    let ghost prev = v@;
                    v = merge_interval(&v, a, b);
                    proof {
                        assert forall|x: u32| v@.contains(x) <==> exists|j: int|
                            0 <= j < i + 1 && #[trigger] part_covers(trim_of(ps[j]), x) by {
                            if a <= x && x <= b {
                                assert(part_covers(trim_of(ps[i as int]), x));
                            }
                            if exists|j: int| 0 <= j < i + 1 && #[trigger] part_covers(trim_of(ps[j]), x) {
                                let j = choose|j: int| 0 <= j < i + 1 && #[trigger] part_covers(trim_of(ps[j]), x);
                                if j < i {
                                    assert(prev.contains(x));
                                }
                            }
                        }
                    }
                },
            }
            i = i + 1;
        }
        Ok(v)
    }
}

/// How bitmap bytes are written: two hex digits or eight binary digits.
#[derive(Debug, Clone, Copy, PartialEq, Eq, Structural)]
pub enum OutputFormat {
    Hex,
    Bin,
}

/// The number style that a format stands for.
pub open spec fn style_of(f: OutputFormat) -> Seq<char> {
    match f {
        OutputFormat::Hex => "hex"@,
        OutputFormat::Bin => "bin"@,
    }
}

/// What `str::to_lowercase` gives for a string.
pub uninterp spec fn lower_of(s: Seq<char>) -> Seq<char>;

/// Relies on `str::to_lowercase`: the lower-case form depends on the
/// characters alone.
#[verifier::external_body]
pub(crate) fn lowercase(s: &str) -> (r: String)
    ensures
        r@ == lower_of(s@),
{
    s.to_lowercase()
}

/// The format named by lower-cased name `lower`: "hex" or "bin"; any other
/// name is refused with a message quoting `given`.
pub open spec fn format_result(lower: Seq<char>, given: Seq<char>) -> Result<OutputFormat, Seq<char>> {
    if lower == "hex"@ {
        Ok(OutputFormat::Hex)
    } else if lower == "bin"@ {
        Ok(OutputFormat::Bin)
    } else {
        Err("Invalid output format: "@ + given)
    }
}

impl OutputFormat {
    /// Picks the format from an already lower-cased name.
    pub fn from_lower(lower: &str, given: &str) -> (r: Result<OutputFormat, String>)
        ensures
            match r {
                Ok(f) => format_result(lower@, given@) == Ok::<OutputFormat, Seq<char>>(f),
                Err(e) => format_result(lower@, given@) == Err::<OutputFormat, Seq<char>>(e@),
            },
    {
        if crate::text::same_text(lower, "hex") {
            Ok(OutputFormat::Hex)
        } else if crate::text::same_text(lower, "bin") {
            Ok(OutputFormat::Bin)
        } else {
            Err(message_with("Invalid output format: ", given))
        }
    }

    /// Picks the format by name, ignoring case: "hex" or "bin".
    pub fn parse(name: &str) -> (r: Result<OutputFormat, String>)
        ensures
            match r {
                Ok(f) => format_result(lower_of(name@), name@) == Ok::<OutputFormat, Seq<char>>(f),
                Err(e) => format_result(lower_of(name@), name@) == Err::<OutputFormat, Seq<char>>(e@),
            },
    {
        let lower = lowercase(name);
        OutputFormat::from_lower(lower.as_str(), name)
    }
}

/// One rendered codepoint: its metrics and its packed 1-bit bitmap.
#[derive(Debug, Clone)]
pub struct GlyphData {
    pub code: u32,
    pub width: u32,
    pub height: u32,
    pub advance: i32,
    pub offset_x: i32,
    pub offset_y: i32,
    pub bitmap: Vec<u8>,
}

/// Total bitmap bytes of the first `n` glyphs.
pub open spec fn bitmap_total(glyphs: Seq<GlyphData>, n: nat) -> nat
    decreases n,
{
    if n == 0 || n > glyphs.len() {
        0
    } else {
        bitmap_total(glyphs, (n - 1) as nat) + glyphs[n - 1].bitmap@.len()
    }
}

/// The glyph-table entry of glyph `g` whose bitmap starts at `pos`.
pub open spec fn entry_of(g: GlyphData, pos: nat) -> GlyphEntry {
    GlyphEntry {
        offset: pos as usize,
        width: g.width,
        height: g.height,
        x_advance: g.advance,
        x_offset: g.offset_x,
        y_offset: g.offset_y as i64,
    }
}

/// Blob lines of the first `n` glyphs.
pub open spec fn glyph_blob_lines(glyphs: Seq<GlyphData>, style: Seq<char>, n: nat) -> Seq<char>
    decreases n,
{
    if n == 0 || n > glyphs.len() {
        Seq::empty()
    } else {
        glyph_blob_lines(glyphs, style, (n - 1) as nat) + blob_comment(glyphs[n - 1].code) + byte_lines(
            glyphs[n - 1].bitmap@,
            style,
            glyphs[n - 1].bitmap@.len(),
        )
    }
}

/// Glyph-table lines of the first `n` glyphs.
pub open spec fn glyph_table_lines(glyphs: Seq<GlyphData>, n: nat) -> Seq<char>
    decreases n,
{
    if n == 0 || n > glyphs.len() {
        Seq::empty()
    } else {
        glyph_table_lines(glyphs, (n - 1) as nat) + table_comment(glyphs[n - 1].code) + table_row(
            entry_of(glyphs[n - 1], bitmap_total(glyphs, (n - 1) as nat)),
        )
    }
}

/// The `font_generated` module for rendered glyphs, their ranges, the
/// fallback slot and the line metrics.
pub open spec fn builder_module_text(
    style: Seq<char>,
    glyphs: Seq<GlyphData>,
    ranges: Seq<GlyphRange>,
    line_height: i32,
    baseline: i32,
    fallback_index: Option<usize>,
) -> Seq<char> {
    "module;\n"@ + "#include <cstdint>\n"@ + "#include <span>\n"@ + "export module font_generated;\n\n"@
        + "import ui_font;\n\n"@ + "static constexpr uint8_t glyph_bitmaps[] = {\n"@ + glyph_blob_lines(
        glyphs,
        style,
        glyphs.len(),
    ) + "};\n\n"@ + "static constexpr Glyph glyph_table[] = {\n"@ + glyph_table_lines(glyphs, glyphs.len())
        + "};\n\n"@ + "static constexpr GlyphRange glyph_ranges[] = {\n"@ + range_lines(ranges, ranges.len())
        + "};\n\n"@ + module_root("font"@, fallback_index, line_height, baseline)
}

/// The last slot of `chars` holding `c`, if any.
pub open spec fn last_slot_of(chars: Seq<u32>, c: u32) -> Option<usize>
    decreases chars.len(),
{
    if chars.len() == 0 {
        None
    } else if chars.last() == c {
        Some((chars.len() - 1) as usize)
    } else {
        last_slot_of(chars.drop_last(), c)
    }
}

/// Bakes a list of codepoints from one font at one pixel size.
pub struct FontBuilder {
    font_data: Vec<u8>,
    font_size: u32,
    chars: Vec<u32>,
    fallback_char: u32,
    output_format: OutputFormat,
}

impl FontBuilder {
    /// The font file's bytes.
    pub closed spec fn spec_font_data(&self) -> Seq<u8> {
        self.font_data@
    }

    /// The pixel size.
    pub closed spec fn spec_font_size(&self) -> u32 {
        self.font_size
    }

    /// The codepoints to bake, in table order.
    pub closed spec fn spec_chars(&self) -> Seq<u32> {
        self.chars@
    }

    /// The codepoint whose slot is the fallback glyph.
    pub closed spec fn spec_fallback_char(&self) -> u32 {
        self.fallback_char
    }

    /// The number style of bitmap bytes.
    pub closed spec fn spec_output_format(&self) -> OutputFormat {
        self.output_format
    }

    /// Gathers the settings of a bake; never refused.
    pub fn new(
        font_data: Vec<u8>,
        font_size: u32,
        chars: Vec<u32>,
        fallback_char: u32,
        output_format: OutputFormat,
    ) -> (r: Result<Self, String>)
        ensures
            r matches Ok(b) && b.spec_font_data() == font_data@ && b.spec_font_size() == font_size
                && b.spec_chars() == chars@ && b.spec_fallback_char() == fallback_char
                && b.spec_output_format() == output_format,
    {
        Ok(FontBuilder { font_data, font_size, chars, fallback_char, output_format })
    }

    /// The font file's bytes.
    pub fn font_data(&self) -> (r: &Vec<u8>)
        ensures
            r@ == self.spec_font_data(),
    {
        &self.font_data
    }

    /// The pixel size.
    pub fn font_size(&self) -> (r: u32)
        ensures
            r == self.spec_font_size(),
    {
        self.font_size
    }

    /// The codepoints to bake.
    pub fn chars(&self) -> (r: &Vec<u32>)
        ensures
            r@ == self.spec_chars(),
    {
        &self.chars
    }

    /// The fallback codepoint.
    pub fn fallback_char(&self) -> (r: u32)
        ensures
            r == self.spec_fallback_char(),
    {
        self.fallback_char
    }

    /// The number style of bitmap bytes.
    pub fn output_format(&self) -> (r: OutputFormat)
        ensures
            r == self.spec_output_format(),
    {
        self.output_format
    }

    /// The range table of `codes`.
    pub fn build_ranges(&self, codes: &[u32]) -> (r: Vec<GlyphRange>)
        requires
            codes@.len() <= u32::MAX,
        ensures
            describes_codes(r@, codes@),
    {
        build_ranges(codes)
    }

    /// Packs a row-major `width` by `height` coverage raster into 1-bit
    /// rows, most significant bit first, each row padded to whole bytes.
    pub fn pack_bitmap(&self, pixels: &[u8], width: u32, height: u32) -> (r: Vec<u8>)
        requires
            pixels@.len() >= (width as nat) * (height as nat),
        ensures
            r@ == packed_bits(pixels@, width as nat, height as nat),
    {
        pack_bitmap_1b(pixels, width, height).0
    }

    /// Writes the `font_generated` module for rendered glyphs; never refused.
    pub fn generate_cpp_module(
        &self,
        glyphs: &[GlyphData],
        ranges: &[GlyphRange],
        line_height: i32,
        baseline: i32,
        fallback_index: Option<usize>,
    ) -> (r: Result<String, String>)
        requires
            bitmap_total(glyphs@, glyphs@.len()) <= usize::MAX,
        ensures
            r matches Ok(text) && text@ == builder_module_text(
                style_of(self.spec_output_format()),
                glyphs@,
                ranges@,
                line_height,
                baseline,
                fallback_index,
            ),
    {
        let style: &str = match self.output_format {
            OutputFormat::Hex => "hex",
            OutputFormat::Bin => "bin",
        };
        let mut out: Vec<char> = Vec::new();
        push_str(&mut out, "module;\n");
        push_str(&mut out, "#include <cstdint>\n");
        push_str(&mut out, "#include <span>\n");
        push_str(&mut out, "export module font_generated;\n\n");
        push_str(&mut out, "import ui_font;\n\n");
        push_str(&mut out, "static constexpr uint8_t glyph_bitmaps[] = {\n");
        let ghost head = out@;
        let n = glyphs.len();
        let mut k: usize = 0;
        while k < n
            invariant
                n == glyphs@.len(),
                k <= n,
                style@ == style_of(self.spec_output_format()),
                out@ == head + glyph_blob_lines(glyphs@, style@, k as nat),
            decreases n - k,
        {
            let g = &glyphs[k];
            let ghost start = out@;
            push_str(&mut out, "    // code ");
            push_dec(&mut out, g.code as u64);
            push_str(&mut out, " ('");
            out.push(crate::emitter::display_char(g.code));
            push_str(&mut out, "')\n");
            assert(out@ =~= start + blob_comment(g.code));
            let ghost mid = out@;
            let m = g.bitmap.len();
            let mut j: usize = 0;
            while j < m
                invariant
                    m == g.bitmap@.len(),
                    j <= m,
                    out@ == mid + byte_lines(g.bitmap@, style@, j as nat),
                decreases m - j,
            {
                push_str(&mut out, "    ");
                push_byte_literal(&mut out, g.bitmap[j], style);
                push_str(&mut out, ",\n");
                j = j + 1;
                assert(out@ =~= mid + byte_lines(g.bitmap@, style@, j as nat));
            }
            k = k + 1;
            assert(out@ =~= head + glyph_blob_lines(glyphs@, style@, k as nat));
        }
        push_str(&mut out, "};\n\n");
        push_str(&mut out, "static constexpr Glyph glyph_table[] = {\n");
        let ghost table_start = out@;
        let mut pos: usize = 0;
        let mut k: usize = 0;
        while k < n
            invariant
                n == glyphs@.len(),
                k <= n,
                bitmap_total(glyphs@, n as nat) <= usize::MAX,
                pos == bitmap_total(glyphs@, k as nat),
                out@ == table_start + glyph_table_lines(glyphs@, k as nat),
            decreases n - k,
        {
            let g = &glyphs[k];
            push_table_comment(&mut out, g.code);
            let e = GlyphEntry {
                offset: pos,
                width: g.width,
                height: g.height,
                x_advance: g.advance,
                x_offset: g.offset_x,
                y_offset: g.offset_y as i64,
            };
            assert(e == entry_of(glyphs@[k as int], pos as nat));
            push_table_row(&mut out, e);
            proof {
                lemma_bitmap_total_grows(glyphs@, (k + 1) as nat, n as nat);
            }
            pos = pos + g.bitmap.len();
            k = k + 1;
            assert(out@ =~= table_start + glyph_table_lines(glyphs@, k as nat));
        }
        push_str(&mut out, "};\n\n");
        push_str(&mut out, "static constexpr GlyphRange glyph_ranges[] = {\n");
        let ranges_vec = ranges_to_vec(ranges);
        push_ranges(&mut out, &ranges_vec);
        push_str(&mut out, "};\n\n");
        push_root(&mut out, "font", fallback_index, line_height, baseline);
        assert(out@ =~= builder_module_text(
            style_of(self.spec_output_format()),
            glyphs@,
            ranges@,
            line_height,
            baseline,
            fallback_index,
        ));
        Ok(chars_to_string(&out))
    }

    /// Writes the module for glyphs rendered in the order of the builder's
    /// codepoints: the fallback slot is where the fallback codepoint stands
    /// in that list, and the ranges are those of the list.
    pub fn generate_with_glyphs(&self, glyphs: &[GlyphData], line_height: i32, baseline: i32) -> (r: Result<String, String>)
        requires
            self.spec_chars().len() <= u32::MAX,
            bitmap_total(glyphs@, glyphs@.len()) <= usize::MAX,
        ensures
            r matches Ok(text) && exists|ranges: Seq<GlyphRange>|
                describes_codes(ranges, self.spec_chars()) && text@ == #[trigger] builder_module_text(
                    style_of(self.spec_output_format()),
                    glyphs@,
                    ranges,
                    line_height,
                    baseline,
                    last_slot_of(self.spec_chars(), self.spec_fallback_char()),
                ),
    {
        let n = self.chars.len();
        let mut fallback_index: Option<usize> = None;
        let mut i: usize = 0;
        while i < n
            invariant
                n == self.chars@.len(),
                i <= n,
                fallback_index == last_slot_of(self.chars@.take(i as int), self.fallback_char),
            decreases n - i,
        {
            assert(self.chars@.take(i + 1).drop_last() =~= self.chars@.take(i as int));
            if self.chars[i] == self.fallback_char {
                fallback_index = Some(i);
            }
            i = i + 1;
        }
        assert(self.chars@.take(n as int) =~= self.chars@);
        let ranges = build_ranges(self.chars.as_slice());
        let r = self.generate_cpp_module(glyphs, ranges.as_slice(), line_height, baseline, fallback_index);
        r
    }
}

proof fn lemma_bitmap_total_grows(glyphs: Seq<GlyphData>, k: nat, n: nat)
    requires
        k <= n <= glyphs.len(),
    ensures
        bitmap_total(glyphs, k) <= bitmap_total(glyphs, n),
    decreases n - k,
{
    if k < n {
        lemma_bitmap_total_grows(glyphs, k, (n - 1) as nat);
    }
}

fn ranges_to_vec(ranges: &[GlyphRange]) -> (r: Vec<GlyphRange>)
    ensures
        r@ == ranges@,
{
    let mut v: Vec<GlyphRange> = Vec::new();
    let mut i: usize = 0;
    while i < ranges.len()
        invariant
            i <= ranges@.len(),
            v@ == ranges@.take(i as int),
        decreases ranges@.len() - i,
    {
        v.push(ranges[i]);
        i = i + 1;
        assert(v@ =~= ranges@.take(i as int));
    }
    assert(ranges@.take(ranges@.len() as int) =~= ranges@);
    v
}

} // verus!
