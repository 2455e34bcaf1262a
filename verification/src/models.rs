//! Data model of the capture pipeline: raw capture records as they arrive
//! from the page session, and the canonical and derived output shapes.

use vstd::prelude::*;

verus! {

/// A loosely typed field of a raw capture record.
///
/// The page session serializes each observation to JSON, so a field can come
/// back as a number, a string, or something else entirely.  `IntVal` holds a
/// number representable as a signed 64-bit integer; `NonIntNum` stands for a
/// number outside that range (or with a fractional part); `Text` holds a
/// string; `Absent` covers a missing field and every other value kind.
#[derive(Debug, Clone)]
pub enum FieldVal {
    IntVal(i64),
    NonIntNum,
    Text(String),
    Absent,
}

/// One raw observation emitted by the in-page interceptor: the assigned
/// `secret` value, the top-level `version` field, and the `version` field
/// found nested inside the captured object (used as a fallback).
#[derive(Debug, Clone)]
pub struct RawRecord {
    pub secret: FieldVal,
    pub version: FieldVal,
    pub obj_version: FieldVal,
}

/// A canonical secret: a strictly positive version paired with the secret
/// string of the last valid capture bearing that version.
#[derive(Debug, Clone)]
pub struct Secret {
    pub version: i32,
    pub secret: String,
}

/// The codepoint representation of a canonical secret: the secret string as
/// an ordered sequence of Unicode code points, one per character.
#[derive(Debug, Clone)]
pub struct SecretBytes {
    pub version: i32,
    pub secret: Vec<i32>,
}

/// One entry of the dictionary representation: the decimal string form of a
/// version mapped to the codepoint array of its secret.
#[derive(Debug, Clone)]
pub struct SecretDictEntry {
    pub key: String,
    pub secret: Vec<i32>,
}

/// The dictionary representation of the canonical mapping.
pub type SecretDict = Vec<SecretDictEntry>;

/// One output file to be written by the caller: a relative path and the
/// full text content.
#[derive(Debug, Clone)]
pub struct OutputFile {
    pub path: String,
    pub content: String,
}

/// The codepoint array of a string: one integer per character, equal to that
/// character's Unicode code point.
pub open spec fn codepoint_seq(s: Seq<char>) -> Seq<i32> {
    s.map_values(|c: char| (c as u32) as i32)
}

/// Turns a secret string into its codepoint array.
pub fn to_codepoints(s: &str) -> (out: Vec<i32>)
    ensures
        out@ == codepoint_seq(s@),
{
    let len = s.unicode_len();
    let mut out: Vec<i32> = Vec::new();
    let mut i: usize = 0;
    while i < len
        invariant
            len == s@.len(),
            0 <= i <= len,
            out@ == codepoint_seq(s@.take(i as int)),
        decreases len - i,
    {
        let c = s.get_char(i);
        proof {
            vstd::utf8::char_is_scalar(c);
        }
        out.push((c as u32) as i32);
        i = i + 1;
        proof {
            assert(s@.take(i as int).drop_last() =~= s@.take(i - 1));
            assert(out@ =~= codepoint_seq(s@.take(i as int)));
        }
    }
    proof {
        assert(s@.take(len as int) =~= s@);
    }
    out
}

} // verus!
