//! The preview of a bake: the first distinct glyphs' coverage rasters,
//! base64-encoded, within a glyph-count and a byte budget.
use vstd::prelude::*;

verus! {

/// At most this many glyphs are previewed.
pub const PREVIEW_MAX_GLYPHS: usize = 256;

/// At most this many raw coverage bytes are previewed.
pub const PREVIEW_MAX_PIXELS_TOTAL: usize = 4 * 1024 * 1024;

/// What `base64`'s standard engine gives for a byte string.
pub uninterp spec fn base64_of(bytes: Seq<u8>) -> Seq<char>;

/// Relies on `base64::engine::general_purpose::STANDARD.encode`: the padded
/// standard-alphabet encoding, a function of the bytes alone, four
/// characters for every started group of three bytes.
#[verifier::external_body]
fn encode_base64(bytes: &Vec<u8>) -> (r: String)
    ensures
        r@ == base64_of(bytes@),
        r@.len() == 4 * ((bytes@.len() + 2) / 3),
{
    base64::Engine::encode(&base64::engine::general_purpose::STANDARD, bytes)
}

/// One rasterized glyph for the preview: size, advance, and coverage.
#[derive(Debug, Clone)]
pub struct PreviewSource {
    pub width: u32,
    pub height: u32,
    pub advance: u32,
    pub coverage: Vec<u8>,
}

/// One previewed glyph.
#[derive(Debug, Clone)]
pub struct PreviewGlyph {
    pub codepoint: u32,
    pub w: u32,
    pub h: u32,
    pub advance: u32,
    pub bitmap_b64: String,
}

/// Coverage bytes of the first `n` sources.
pub open spec fn coverage_total(srcs: Seq<PreviewSource>, n: nat) -> nat
    decreases n,
{
    if n == 0 || n > srcs.len() {
        0
    } else {
        coverage_total(srcs, (n - 1) as nat) + srcs[n - 1].coverage@.len()
    }
}

/// How many of the first `m` sources fit the byte budget, taken in order
/// and stopping at the first that does not fit.
pub open spec fn preview_count(srcs: Seq<PreviewSource>, m: nat) -> nat
    decreases m,
{
    if m == 0 {
        0
    } else {
        let c = preview_count(srcs, (m - 1) as nat);
        if c == m - 1 && coverage_total(srcs, m) <= PREVIEW_MAX_PIXELS_TOTAL {
            m
        } else {
            c
        }
    }
}

/// The preview's truncation note: the glyphs taken and their bytes, when
/// the budget stopped the preview or more distinct glyphs exist than may
/// be shown.
pub open spec fn preview_truncation(srcs: Seq<PreviewSource>, distinct_len: nat) -> Option<(usize, usize)> {
    let c = preview_count(srcs, srcs.len());
    if c < srcs.len() || distinct_len > PREVIEW_MAX_GLYPHS {
        Some((c as usize, coverage_total(srcs, c) as usize))
    } else {
        None
    }
}

proof fn lemma_count_bounded(srcs: Seq<PreviewSource>, m: nat)
    ensures
        preview_count(srcs, m) <= m,
        preview_count(srcs, m) < m ==> preview_count(srcs, m + 1) == preview_count(srcs, m),
    decreases m,
{
    if m > 0 {
        lemma_count_bounded(srcs, (m - 1) as nat);
    }
}

/// Builds the preview of the distinct glyphs (glyph, labelling codepoint)
/// from the rasters of the first of them (`sources[k]` for `distinct[k]`,
/// as many as may be shown).
pub fn build_preview(distinct: &Vec<(u16, u32)>, sources: &Vec<PreviewSource>) -> (r: (
    Vec<PreviewGlyph>,
    Option<(usize, usize)>,
))
    requires
        sources@.len() == if distinct@.len() < PREVIEW_MAX_GLYPHS {
            distinct@.len()
        } else {
            PREVIEW_MAX_GLYPHS as nat
        },
    ensures
        r.0@.len() == preview_count(sources@, sources@.len()),
        forall|k: int|
            0 <= k < r.0@.len() ==> {
                &&& (#[trigger] r.0@[k]).codepoint == distinct@[k].1
                &&& r.0@[k].w == sources@[k].width
                &&& r.0@[k].h == sources@[k].height
                &&& r.0@[k].advance == sources@[k].advance
                &&& r.0@[k].bitmap_b64@ == base64_of(sources@[k].coverage@)
                &&& r.0@[k].bitmap_b64@.len() == 4 * ((sources@[k].coverage@.len() + 2) / 3)
            },
        r.1 == preview_truncation(sources@, distinct@.len()),
{
    let n = sources.len();
    let mut glyphs: Vec<PreviewGlyph> = Vec::new();
    let mut total: usize = 0;
    let mut stopped = false;
    let mut k: usize = 0;
    while k < n && !stopped
        invariant
            n == sources@.len(),
            n <= distinct@.len(),
            k <= n,
            glyphs@.len() == k,
            total == coverage_total(sources@, k as nat),
            total <= PREVIEW_MAX_PIXELS_TOTAL,
            preview_count(sources@, k as nat) == k,
            stopped ==> preview_count(sources@, n as nat) == k && k < n,
            forall|j: int|
                0 <= j < k ==> {
                    &&& (#[trigger] glyphs@[j]).codepoint == distinct@[j].1
                    &&& glyphs@[j].w == sources@[j].width
                    &&& glyphs@[j].h == sources@[j].height
                    &&& glyphs@[j].advance == sources@[j].advance
                    &&& glyphs@[j].bitmap_b64@ == base64_of(sources@[j].coverage@)
                    &&& glyphs@[j].bitmap_b64@.len() == 4 * ((sources@[j].coverage@.len() + 2) / 3)
                },
        decreases (n - k) * 2 + (if stopped { 0int } else { 1int }),
    {
        let s = &sources[k];
        let len = s.coverage.len();
        if len > PREVIEW_MAX_PIXELS_TOTAL - total {
            proof {
                assert(coverage_total(sources@, (k + 1) as nat) > PREVIEW_MAX_PIXELS_TOTAL);
                lemma_stays_stopped(sources@, k as nat, n as nat);
            }
            stopped = true;
        } else {
            let b64 = encode_base64(&s.coverage);
            glyphs.push(PreviewGlyph {
                codepoint: distinct[k].1,
                w: s.width,
                h: s.height,
                advance: s.advance,
                bitmap_b64: b64,
            });
            total = total + len;
            k = k + 1;
        }
    }
    let truncated: Option<(usize, usize)> = if stopped || distinct.len() > PREVIEW_MAX_GLYPHS {
        Some((glyphs.len(), total))
    } else {
        None
    };
    proof {
        if !stopped {
            assert(k == n);
        }
    }
    (glyphs, truncated)
}

proof fn lemma_stays_stopped(srcs: Seq<PreviewSource>, k: nat, n: nat)
    requires
        k < n <= srcs.len(),
        preview_count(srcs, k) == k,
        coverage_total(srcs, k + 1) > PREVIEW_MAX_PIXELS_TOTAL,
    ensures
        preview_count(srcs, n) == k,
    decreases n - k,
{
    if n == k + 1 {
    } else {
        lemma_stays_stopped(srcs, k, (n - 1) as nat);
        lemma_count_bounded(srcs, (n - 1) as nat);
    }
}

} // verus!
