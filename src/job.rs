//! The description of one bake: where the font comes from, its pixel size,
//! which codepoints to take, and how to write the result.
use vstd::prelude::*;
use crate::text::{trim_of, trim_str};

verus! {

/// Where the font file is found: by a system family entry or a file path.
#[derive(Debug, Clone)]
pub enum FontSource {
    System { family: String },
    File { path: String },
}

/// An inclusive codepoint range `start ..= end`.
#[derive(Debug, Clone, Copy)]
pub struct JobRange {
    pub start: u32,
    pub end: u32,
}

/// One bake request.
#[derive(Debug, Clone)]
pub struct FontJob {
    pub source: FontSource,
    pub module_name: String,
    pub size_px: u32,
    pub range: JobRange,
    pub custom_chars: Option<String>,
    pub fallback_char: Option<String>,
    pub output_kind: String,
    pub export_name: String,
    pub with_comments: bool,
    pub number_format: String,
}

/// Why a bake is refused before any glyph work.
#[derive(Debug, Clone, Copy, PartialEq, Eq, Structural)]
pub enum BakeError {
    /// The range starts after it ends.
    InvalidRange,
}

impl BakeError {
    /// The error as a line of text for the user.
    pub fn message(&self) -> (r: String)
        ensures
            r@ == "Invalid range: start must be <= end"@,
    {
        String::from_str("Invalid range: start must be <= end")
    }
}

/// What a trimmed file name `t` becomes: "settings.json" when empty,
/// refused when it holds a path separator, else itself.
pub open spec fn sanitized(t: Seq<char>) -> Result<Seq<char>, Seq<char>> {
    if t.len() == 0 {
        Ok("settings.json"@)
    } else if t.contains('/') || t.contains('\\') {
        Err("Invalid filename"@)
    } else {
        Ok(t)
    }
}

/// Checks an already trimmed file name.
pub fn sanitize_trimmed(t: &str) -> (r: Result<String, String>)
    ensures
        match r {
            Ok(s) => sanitized(t@) == Ok::<Seq<char>, Seq<char>>(s@),
            Err(e) => sanitized(t@) == Err::<Seq<char>, Seq<char>>(e@),
        },
{
    let n = t.unicode_len();
    if n == 0 {
        return Ok(String::from_str("settings.json"));
    }
    let mut i: usize = 0;
    while i < n
        invariant
            n == t@.len(),
            i <= n,
            forall|j: int| 0 <= j < i ==> t@[j] != '/' && t@[j] != '\\',
        decreases n - i,
    {
        let c = t.get_char(i);
        if c == '/' || c == '\\' {
            assert(t@.contains(c));
            return Err(String::from_str("Invalid filename"));
        }
        i = i + 1;
    }
    Ok(String::from_str(t))
}

/// Checks a file name for the settings store: trimmed, defaulted when
/// empty, refused when it holds a path separator.
pub fn sanitize_filename(filename: &str) -> (r: Result<String, String>)
    ensures
        match r {
            Ok(s) => sanitized(trim_of(filename@)) == Ok::<Seq<char>, Seq<char>>(s@),
            Err(e) => sanitized(trim_of(filename@)) == Err::<Seq<char>, Seq<char>>(e@),
        },
{
    sanitize_trimmed(trim_str(filename))
}

/// Checks the request's range: refused exactly when it starts after it ends.
pub fn check_range(range: &JobRange) -> (r: Result<(), BakeError>)
    ensures
        r is Err <==> range.start > range.end,
        r is Err ==> r == Err::<(), BakeError>(BakeError::InvalidRange),
{
    if range.start > range.end {
        Err(BakeError::InvalidRange)
    } else {
        Ok(())
    }
}

} // verus!
