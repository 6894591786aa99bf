//! Codepoint resolution: the requested codepoint set, the optional fallback
//! character, and the mapping of every requested codepoint to a glyph index
//! of the font, with one warning per substitution or miss.
use vstd::prelude::*;
use crate::codepoints::{is_scalar, lemma_char_is_scalar, merge_interval, strictly_increasing};
use crate::job::{FontJob, JobRange};
use crate::text::{
    chars_to_string, dec, is_white_space, lemma_blank_trims_to_empty, numeral, push_dec, push_numeral,
    push_str, trim_of, trim_str,
};

verus! {

#[verifier::external_type_specification]
#[verifier::external_body]
pub struct ExFont(fontdue::Font);

/// Relies on `fontdue::Font::lookup_glyph_index`: the glyph index that the
/// font maps the character to, 0 when it maps it to none. Nothing is known
/// of which index a font gives.
pub assume_specification[ fontdue::Font::lookup_glyph_index ](
    font: &fontdue::Font,
    character: char,
) -> u16;

/// Relies on `char::from_u32`: a character exactly for the Unicode scalar
/// values, holding that value.
#[verifier::external_body]
pub fn char_from_u32(cp: u32) -> (r: Option<char>)
    ensures
        r is Some <==> is_scalar(cp),
        r matches Some(c) ==> c as u32 == cp,
{
    char::from_u32(cp)
}

/// A non-fatal finding of a bake, reported beside its result.
#[derive(Debug, Clone, Copy, PartialEq, Eq, Structural)]
pub enum Warning {
    /// The font has no glyph for the codepoint and no fallback is set.
    MissingGlyph { codepoint: u32 },
    /// The font has no glyph for the codepoint; the fallback's glyph is used.
    MissingGlyphUsingFallback { codepoint: u32, fallback: u32 },
    /// Neither the codepoint nor the fallback has a glyph in the font.
    MissingGlyphAndFallback { codepoint: u32, fallback: u32 },
    /// The fallback text held more than one character; the first is used.
    FallbackHasSeveralChars,
    /// The preview stopped early, after this many glyphs and raster bytes.
    PreviewTruncated { glyphs: usize, bytes: usize },
}

/// A codepoint in `U+` notation: at least four upper-case hex digits.
pub open spec fn u_plus(cp: u32) -> Seq<char> {
    "U+"@ + numeral(cp as nat, 16, 4)
}

/// The text of a warning.
pub open spec fn warning_text(w: Warning) -> Seq<char> {
    match w {
        Warning::MissingGlyph { codepoint } => "Missing glyph "@ + u_plus(codepoint),
        Warning::MissingGlyphUsingFallback { codepoint, fallback } => "Missing glyph "@ + u_plus(
            codepoint,
        ) + ", using fallback "@ + u_plus(fallback),
        Warning::MissingGlyphAndFallback { codepoint, fallback } => "Missing glyph "@ + u_plus(
            codepoint,
        ) + " and fallback "@ + u_plus(fallback) + " not found"@,
        Warning::FallbackHasSeveralChars => "Fallback char has multiple characters, using the first one"@,
        Warning::PreviewTruncated { glyphs, bytes } => "Preview truncated (glyphs="@ + dec(glyphs as nat)
            + ", bytes="@ + dec(bytes as nat) + ")"@,
    }
}

fn push_u_plus(out: &mut Vec<char>, cp: u32)
    ensures
        final(out)@ == old(out)@ + u_plus(cp),
{
    push_str(out, "U+");
    push_numeral(out, cp as u64, 16, 4);
    assert(final(out)@ =~= old(out)@ + u_plus(cp));
}

impl Warning {
    /// The warning as a line of text for the user.
    pub fn message(&self) -> (r: String)
        ensures
            r@ == warning_text(*self),
    {
        let mut out: Vec<char> = Vec::new();
        match *self {
            Warning::MissingGlyph { codepoint } => {
                push_str(&mut out, "Missing glyph ");
                push_u_plus(&mut out, codepoint);
            },
            Warning::MissingGlyphUsingFallback { codepoint, fallback } => {
                push_str(&mut out, "Missing glyph ");
                push_u_plus(&mut out, codepoint);
                push_str(&mut out, ", using fallback ");
                push_u_plus(&mut out, fallback);
            },
            Warning::MissingGlyphAndFallback { codepoint, fallback } => {
                push_str(&mut out, "Missing glyph ");
                push_u_plus(&mut out, codepoint);
                push_str(&mut out, " and fallback ");
                push_u_plus(&mut out, fallback);
                push_str(&mut out, " not found");
            },
            Warning::FallbackHasSeveralChars => {
                push_str(&mut out, "Fallback char has multiple characters, using the first one");
            },
            Warning::PreviewTruncated { glyphs, bytes } => {
                push_str(&mut out, "Preview truncated (glyphs=");
                push_dec(&mut out, glyphs as u64);
                push_str(&mut out, ", bytes=");
                push_dec(&mut out, bytes as u64);
                push_str(&mut out, ")");
            },
        }
        assert(out@ =~= warning_text(*self));
        chars_to_string(&out)
    }
}

/// Whether the custom text holds a character with scalar value `x`.
pub open spec fn custom_has(custom: Option<String>, x: u32) -> bool {
    match custom {
        Some(s) => exists|i: int| 0 <= i < s@.len() && #[trigger] s@[i] as u32 == x,
        None => false,
    }
}

/// Whether `x` is requested: a scalar value inside the range, or a
/// character of the custom text.
pub open spec fn requested(range: JobRange, custom: Option<String>, x: u32) -> bool {
    (range.start <= x && x <= range.end && is_scalar(x)) || custom_has(custom, x)
}

/// The requested codepoints, ascending and without repeats.
pub fn candidate_codepoints(range: &JobRange, custom: &Option<String>) -> (r: Vec<u32>)
    ensures
        strictly_increasing(r@),
        forall|x: u32| r@.contains(x) <==> requested(*range, *custom, x),
{
    let mut v: Vec<u32> = Vec::new();
    match custom {
        Some(s) => {
            let n = s.as_str().unicode_len();
            let mut i: usize = 0;
            while i < n
                invariant
                    n == s@.len(),
                    i <= n,
                    strictly_increasing(v@),
                    forall|x: u32|
                        v@.contains(x) <==> exists|j: int| 0 <= j < i && #[trigger] s@[j] as u32 == x,
                decreases n - i,
            {
                let c = s.as_str().get_char(i) as u32;
                let ghost prev = v@;
                v = merge_interval(&v, c, c);
                proof {
                    assert forall|x: u32| v@.contains(x) <==> exists|j: int|
                        0 <= j < i + 1 && #[trigger] s@[j] as u32 == x by {
                        if x == c {
                            assert(s@[i as int] as u32 == x);
                        }
                        if exists|j: int| 0 <= j < i + 1 && #[trigger] s@[j] as u32 == x {
                            let j = choose|j: int| 0 <= j < i + 1 && #[trigger] s@[j] as u32 == x;
                            if j < i {
                                assert(prev.contains(x));
                            }
                        }
                    }
                }
                i = i + 1;
            }
        },
        None => {},
    }
    let ghost from_custom = v@;
    let low_end: u32 = if range.end < 0xD7FF { range.end } else { 0xD7FF };
    v = merge_interval(&v, range.start, low_end);
    let high_start: u32 = if range.start > 0xE000 { range.start } else { 0xE000 };
    let high_end: u32 = if range.end < 0x10FFFF { range.end } else { 0x10FFFF };
    v = merge_interval(&v, high_start, high_end);
    proof {
        assert forall|x: u32| v@.contains(x) <==> requested(*range, *custom, x) by {
            assert(from_custom.contains(x) <==> custom_has(*custom, x));
        }
    }
    v
}

/// The fallback character that trimmed fallback text `t` names: its first
/// character, none when it is empty.
pub open spec fn fallback_of_trimmed(t: Seq<char>) -> Option<char> {
    if t.len() == 0 { None } else { Some(t[0]) }
}

/// The warnings that trimmed fallback text `t` raises.
pub open spec fn fallback_warnings_of_trimmed(t: Seq<char>) -> Seq<Warning> {
    if t.len() > 1 { seq![Warning::FallbackHasSeveralChars] } else { Seq::empty() }
}

/// The job's fallback character: the first character of its trimmed
/// fallback text, none when there is no text or it trims to nothing.
pub open spec fn job_fallback(job: FontJob) -> Option<char> {
    match job.fallback_char {
        Some(s) => fallback_of_trimmed(trim_of(s@)),
        None => None,
    }
}

/// The warnings that the job's fallback text raises.
pub open spec fn job_fallback_warnings(job: FontJob) -> Seq<Warning> {
    match job.fallback_char {
        Some(s) => fallback_warnings_of_trimmed(trim_of(s@)),
        None => Seq::empty(),
    }
}

/// A fallback text of white space only sets no fallback and raises no
/// warning.
pub proof fn lemma_blank_fallback_is_none(job: FontJob)
    requires
        job.fallback_char matches Some(s) && forall|i: int|
            0 <= i < s@.len() ==> is_white_space(#[trigger] s@[i]),
    ensures
        job_fallback(job) == None::<char>,
        job_fallback_warnings(job) == Seq::<Warning>::empty(),
{
    lemma_blank_trims_to_empty(job.fallback_char->Some_0@);
}

/// Picks the fallback character out of already trimmed text, warning when
/// the text holds more than one character.
pub fn fallback_from_trimmed(t: &str, warnings: &mut Vec<Warning>) -> (r: Option<char>)
    ensures
        r == fallback_of_trimmed(t@),
        final(warnings)@ == old(warnings)@ + fallback_warnings_of_trimmed(t@),
{
    let n = t.unicode_len();
    if n == 0 {
        assert(old(warnings)@ + fallback_warnings_of_trimmed(t@) =~= old(warnings)@);
        return None;
    }
    let first = t.get_char(0);
    if n > 1 {
        warnings.push(Warning::FallbackHasSeveralChars);
    } else {
        assert(old(warnings)@ + fallback_warnings_of_trimmed(t@) =~= old(warnings)@);
    }
    Some(first)
}

/// The job's fallback character; a fallback text of several characters
/// adds a warning.
pub fn parse_fallback_char(job: &FontJob, warnings: &mut Vec<Warning>) -> (r: Option<char>)
    ensures
        r == job_fallback(*job),
        final(warnings)@ == old(warnings)@ + job_fallback_warnings(*job),
{
    match &job.fallback_char {
        Some(s) => fallback_from_trimmed(trim_str(s.as_str()), warnings),
        None => {
            assert(old(warnings)@ + job_fallback_warnings(*job) =~= old(warnings)@);
            None
        },
    }
}

/// The job's fallback codepoint, as `parse_fallback_char` picks it.
pub fn fallback_codepoint(job: &FontJob) -> (r: Option<u32>)
    ensures
        r == (match job_fallback(*job) {
            Some(c) => Some(c as u32),
            None => None,
        }),
{
    let mut ignored: Vec<Warning> = Vec::new();
    match parse_fallback_char(job, &mut ignored) {
        Some(c) => Some(c as u32),
        None => None,
    }
}

/// The glyph a codepoint ends on, given its own glyph index and the
/// fallback's codepoint and glyph index: its own when the font has one,
/// else the fallback's when that exists, else its own (empty) index.
pub open spec fn resolved_glyph(own: u16, fallback: Option<(u32, u16)>) -> u16 {
    if own != 0 {
        own
    } else {
        match fallback {
            Some(f) => if f.1 != 0 { f.1 } else { own },
            None => own,
        }
    }
}

/// The warning that one codepoint's lookup raises, if any.
pub open spec fn lookup_warnings(cp: u32, own: u16, fallback: Option<(u32, u16)>) -> Seq<Warning> {
    if own != 0 {
        Seq::empty()
    } else {
        match fallback {
            Some(f) => if f.1 != 0 {
                seq![Warning::MissingGlyphUsingFallback { codepoint: cp, fallback: f.0 }]
            } else {
                seq![Warning::MissingGlyphAndFallback { codepoint: cp, fallback: f.0 }]
            },
            None => seq![Warning::MissingGlyph { codepoint: cp }],
        }
    }
}

/// The warnings of the first `n` lookups, in codepoint order.
pub open spec fn resolution_warnings(
    cps: Seq<u32>,
    owns: Seq<u16>,
    fallback: Option<(u32, u16)>,
    n: nat,
) -> Seq<Warning>
    decreases n,
{
    if n == 0 {
        Seq::empty()
    } else {
        resolution_warnings(cps, owns, fallback, (n - 1) as nat) + lookup_warnings(
            cps[n - 1],
            owns[n - 1],
            fallback,
        )
    }
}

/// Each codepoint paired with the glyph it resolves to, in the same order.
pub open spec fn resolved_mapping(cps: Seq<u32>, owns: Seq<u16>, fallback: Option<(u32, u16)>) -> Seq<(u32, u16)> {
    Seq::new(cps.len(), |i: int| (cps[i], resolved_glyph(owns[i], fallback)))
}

/// The codepoints of a mapping, in order.
pub open spec fn mapping_keys(m: Seq<(u32, u16)>) -> Seq<u32> {
    m.map_values(|e: (u32, u16)| e.0)
}

/// Resolves each codepoint from its own glyph index (`owns`, 0 for none)
/// and the fallback's codepoint and glyph index, warning once for each
/// codepoint the font has no glyph for.
pub fn resolve_glyphs(cps: &Vec<u32>, owns: &Vec<u16>, fallback: Option<(u32, u16)>) -> (r: (
    Vec<(u32, u16)>,
    Vec<Warning>,
))
    requires
        owns@.len() == cps@.len(),
    ensures
        r.0@ == resolved_mapping(cps@, owns@, fallback),
        r.1@ == resolution_warnings(cps@, owns@, fallback, cps@.len()),
{
    let n = cps.len();
    let mut mapping: Vec<(u32, u16)> = Vec::new();
    let mut warnings: Vec<Warning> = Vec::new();
    let mut i: usize = 0;
    while i < n
        invariant
            n == cps@.len(),
            owns@.len() == n,
            i <= n,
            mapping@ == resolved_mapping(cps@, owns@, fallback).take(i as int),
            warnings@ == resolution_warnings(cps@, owns@, fallback, i as nat),
        decreases n - i,
    {
        let cp = cps[i];
        let own = owns[i];
        let glyph: u16 = if own != 0 {
            own
        } else {
            match fallback {
                Some(f) => {
                    if f.1 != 0 {
                        warnings.push(Warning::MissingGlyphUsingFallback { codepoint: cp, fallback: f.0 });
                        f.1
                    } else {
                        warnings.push(Warning::MissingGlyphAndFallback { codepoint: cp, fallback: f.0 });
                        own
                    }
                },
                None => {
                    warnings.push(Warning::MissingGlyph { codepoint: cp });
                    own
                },
            }
        };
        mapping.push((cp, glyph));
        i = i + 1;
        assert(mapping@ =~= resolved_mapping(cps@, owns@, fallback).take(i as int));
        assert(warnings@ =~= resolution_warnings(cps@, owns@, fallback, i as nat));
    }
    assert(resolved_mapping(cps@, owns@, fallback).take(n as int) =~= resolved_mapping(cps@, owns@, fallback));
    (mapping, warnings)
}

/// The fallback entry handed to resolution: the fallback's codepoint and
/// the glyph index `fg` that the font gave it.
pub open spec fn fallback_entry(fallback: Option<char>, fg: u16) -> Option<(u32, u16)> {
    match fallback {
        Some(c) => Some((c as u32, fg)),
        None => None,
    }
}

/// Mapping `m` and warnings `w` are what resolution gives for the job when
/// the font gives glyph index `owns[i]` to the `i`-th codepoint of `m` and
/// `fg` to the fallback character.
pub open spec fn resolution_of(job: FontJob, m: Seq<(u32, u16)>, w: Seq<Warning>, owns: Seq<u16>, fg: u16) -> bool {
    let cps = mapping_keys(m);
    let fb = fallback_entry(job_fallback(job), fg);
    &&& owns.len() == m.len()
    &&& m == resolved_mapping(cps, owns, fb)
    &&& w == job_fallback_warnings(job) + resolution_warnings(cps, owns, fb, m.len())
}

/// Resolves the job's requested codepoints against the font. The mapping
/// holds every requested codepoint once, ascending; each is resolved as
/// `resolved_mapping` says from whatever glyph indices the font gave, and
/// the warnings are the fallback text's followed by one per missing glyph.
pub fn collect_codepoints(job: &FontJob, font: &fontdue::Font) -> (r: (Vec<(u32, u16)>, Vec<Warning>))
    ensures
        strictly_increasing(mapping_keys(r.0@)),
        forall|i: int| 0 <= i < r.0@.len() ==> is_scalar(#[trigger] r.0@[i].0),
        forall|x: u32| mapping_keys(r.0@).contains(x) <==> requested(job.range, job.custom_chars, x),
        exists|owns: Seq<u16>, fg: u16| #[trigger] resolution_of(*job, r.0@, r.1@, owns, fg),
{
    let cps = candidate_codepoints(&job.range, &job.custom_chars);
    let mut warnings: Vec<Warning> = Vec::new();
    let fallback = parse_fallback_char(job, &mut warnings);
    let n = cps.len();
    let mut owns: Vec<u16> = Vec::new();
    let mut i: usize = 0;
    while i < n
        invariant
            n == cps@.len(),
            i <= n,
            owns@.len() == i,
        decreases n - i,
    {
        let own: u16 = match char_from_u32(cps[i]) {
            Some(c) => font.lookup_glyph_index(c),
            None => 0,
        };
        owns.push(own);
        i = i + 1;
    }
    let fg: u16 = match fallback {
        Some(c) => font.lookup_glyph_index(c),
        None => 0,
    };
    let fb: Option<(u32, u16)> = match fallback {
        Some(c) => Some((c as u32, fg)),
        None => None,
    };
    let (mapping, mut found) = resolve_glyphs(&cps, &owns, fb);
    warnings.append(&mut found);
    proof {
        assert(mapping_keys(mapping@) =~= cps@);
        assert(fb == fallback_entry(job_fallback(*job), fg));
    }
    assert forall|i: int| 0 <= i < mapping@.len() implies is_scalar(#[trigger] mapping@[i].0) by {
        assert(mapping_keys(mapping@)[i] == mapping@[i].0);
        assert(cps@.contains(mapping@[i].0));
        if custom_has(job.custom_chars, mapping@[i].0) {
            let s = job.custom_chars->Some_0;
            let j = choose|j: int| 0 <= j < s@.len() && #[trigger] s@[j] as u32 == mapping@[i].0;
            lemma_char_is_scalar(s@[j]);
        }
    }
    let r = (mapping, warnings);
    assert(resolution_of(*job, r.0@, r.1@, owns@, fg));
    assert(exists|ow: Seq<u16>, f: u16| #[trigger] resolution_of(*job, r.0@, r.1@, ow, f));
    r
}

} // verus!
