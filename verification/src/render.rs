//! JSON rendering of the output representations: the pretty plain-record
//! list, the compact codepoint-record list, and the compact dictionary.
//! The text layout (two-space pretty indentation, string escaping of the
//! quote, the backslash and control characters) is pinned down by the spec
//! functions here.

use vstd::prelude::*;
use crate::models::{Secret, SecretBytes, SecretDictEntry};
use crate::numerals::{dec_str, push_decimal, push_char};

verus! {

/// The lowercase hexadecimal digit character for `d` (`d < 16`).
pub open spec fn hex_char(d: nat) -> char {
    if d == 0 {
        '0'
    } else if d == 1 {
        '1'
    } else if d == 2 {
        '2'
    } else if d == 3 {
        '3'
    } else if d == 4 {
        '4'
    } else if d == 5 {
        '5'
    } else if d == 6 {
        '6'
    } else if d == 7 {
        '7'
    } else if d == 8 {
        '8'
    } else if d == 9 {
        '9'
    } else if d == 10 {
        'a'
    } else if d == 11 {
        'b'
    } else if d == 12 {
        'c'
    } else if d == 13 {
        'd'
    } else if d == 14 {
        'e'
    } else {
        'f'
    }
}

/// How one character appears inside a JSON string literal: the quote and
/// the backslash get a backslash escape, the common control characters get
/// their short escapes, the remaining control characters get a `\u00xy`
/// escape with lowercase hex digits, and every other character stands as
/// itself.
pub open spec fn escape_char(c: char) -> Seq<char> {
    if c == '"' {
        "\\\""@
    } else if c == '\\' {
        "\\\\"@
    } else if c == '\u{8}' {
        "\\b"@
    } else if c == '\t' {
        "\\t"@
    } else if c == '\n' {
        "\\n"@
    } else if c == '\u{c}' {
        "\\f"@
    } else if c == '\r' {
        "\\r"@
    } else if (c as u32) < 0x20 {
        "\\u00"@ + seq![hex_char((c as u32 / 16) as nat), hex_char((c as u32 % 16) as nat)]
    } else {
        seq![c]
    }
}

/// The escaped body of a JSON string literal.
pub open spec fn json_escaped(s: Seq<char>) -> Seq<char>
    decreases s.len(),
{
    if s.len() == 0 {
        Seq::empty()
    } else {
        json_escaped(s.drop_last()) + escape_char(s.last())
    }
}

/// A JSON string literal: the escaped body between double quotes.
pub open spec fn json_string(s: Seq<char>) -> Seq<char> {
    "\""@ + json_escaped(s) + "\""@
}

/// One entry of the pretty plain-record list (without the surrounding
/// array indentation of its first line).
pub open spec fn pretty_entry(e: Secret) -> Seq<char> {
    "{\n    \"version\": "@ + dec_str(e.version as nat) + ",\n    \"secret\": "@ + json_string(
        e.secret@,
    ) + "\n  }"@
}

/// The pretty entries joined with the array separator and indentation.
pub open spec fn pretty_items(s: Seq<Secret>) -> Seq<char>
    decreases s.len(),
{
    if s.len() == 0 {
        Seq::empty()
    } else if s.len() == 1 {
        "  "@ + pretty_entry(s[0])
    } else {
        pretty_items(s.drop_last()) + ",\n  "@ + pretty_entry(s.last())
    }
}

/// The pretty text of the plain-record list.
pub open spec fn secrets_pretty_text(s: Seq<Secret>) -> Seq<char> {
    if s.len() == 0 {
        "[]"@
    } else {
        "[\n"@ + pretty_items(s) + "\n]"@
    }
}

/// The compact text of an integer array.
pub open spec fn int_array_items(ns: Seq<i32>) -> Seq<char>
    decreases ns.len(),
{
    if ns.len() == 0 {
        Seq::empty()
    } else if ns.len() == 1 {
        dec_str(ns[0] as nat)
    } else {
        int_array_items(ns.drop_last()) + ","@ + dec_str(ns.last() as nat)
    }
}

/// The compact text of an integer array, brackets included.
pub open spec fn int_array_text(ns: Seq<i32>) -> Seq<char> {
    "["@ + int_array_items(ns) + "]"@
}

/// One entry of the compact codepoint-record list.
pub open spec fn bytes_entry(e: SecretBytes) -> Seq<char> {
    "{\"version\":"@ + dec_str(e.version as nat) + ",\"secret\":"@ + int_array_text(e.secret@)
        + "}"@
}

/// The compact codepoint-record entries joined with commas.
pub open spec fn bytes_items(s: Seq<SecretBytes>) -> Seq<char>
    decreases s.len(),
{
    if s.len() == 0 {
        Seq::empty()
    } else if s.len() == 1 {
        bytes_entry(s[0])
    } else {
        bytes_items(s.drop_last()) + ","@ + bytes_entry(s.last())
    }
}

/// The compact text of the codepoint-record list.
pub open spec fn bytes_compact_text(s: Seq<SecretBytes>) -> Seq<char> {
    if s.len() == 0 {
        "[]"@
    } else {
        "["@ + bytes_items(s) + "]"@
    }
}

/// One entry of the compact dictionary.
pub open spec fn dict_entry_text(e: SecretDictEntry) -> Seq<char> {
    json_string(e.key@) + ":"@ + int_array_text(e.secret@)
}

/// The compact dictionary entries joined with commas.
pub open spec fn dict_items(s: Seq<SecretDictEntry>) -> Seq<char>
    decreases s.len(),
{
    if s.len() == 0 {
        Seq::empty()
    } else if s.len() == 1 {
        dict_entry_text(s[0])
    } else {
        dict_items(s.drop_last()) + ","@ + dict_entry_text(s.last())
    }
}

/// The compact text of the dictionary.
pub open spec fn dict_compact_text(s: Seq<SecretDictEntry>) -> Seq<char> {
    if s.len() == 0 {
        "{}"@
    } else {
        "{"@ + dict_items(s) + "}"@
    }
}

/// Every element of the sequence is non-negative.
pub open spec fn nonneg_seq(ns: Seq<i32>) -> bool {
    forall|i: int| 0 <= i < ns.len() ==> ns[i] >= 0
}

/// The lowercase hexadecimal digit character of `d`.
fn hex_char_exec(d: u32) -> (c: char)
    requires
        d < 16,
    ensures
        c == hex_char(d as nat),
{
    if d == 0 {
        '0'
    } else if d == 1 {
        '1'
    } else if d == 2 {
        '2'
    } else if d == 3 {
        '3'
    } else if d == 4 {
        '4'
    } else if d == 5 {
        '5'
    } else if d == 6 {
        '6'
    } else if d == 7 {
        '7'
    } else if d == 8 {
        '8'
    } else if d == 9 {
        '9'
    } else if d == 10 {
        'a'
    } else if d == 11 {
        'b'
    } else if d == 12 {
        'c'
    } else if d == 13 {
        'd'
    } else if d == 14 {
        'e'
    } else {
        'f'
    }
}

/// Appends the escaped form of one character.
fn append_escaped_char(out: &mut String, c: char)
    ensures
        final(out)@ == old(out)@ + escape_char(c),
{
    if c == '"' {
        out.append("\\\"");
    } else if c == '\\' {
        out.append("\\\\");
    } else if c == '\u{8}' {
        out.append("\\b");
    } else if c == '\t' {
        out.append("\\t");
    } else if c == '\n' {
        out.append("\\n");
    } else if c == '\u{c}' {
        out.append("\\f");
    } else if c == '\r' {
        out.append("\\r");
    } else if (c as u32) < 0x20 {
        let cu = c as u32;
        out.append("\\u00");
        push_char(out, hex_char_exec(cu / 16));
        push_char(out, hex_char_exec(cu % 16));
        proof {
            assert(out@ =~= old(out)@ + escape_char(c));
        }
    } else {
        push_char(out, c);
        proof {
            assert(out@ =~= old(out)@ + escape_char(c));
        }
    }
}

/// Appends the JSON string literal for `s`.
fn append_json_string(out: &mut String, s: &str)
    ensures
        final(out)@ == old(out)@ + json_string(s@),
{
    out.append("\"");
    let len = s.unicode_len();
    let mut i: usize = 0;
    while i < len
        invariant
            len == s@.len(),
            0 <= i <= len,
            out@ == old(out)@ + "\""@ + json_escaped(s@.take(i as int)),
        decreases len - i,
    {
        let c = s.get_char(i);
        append_escaped_char(out, c);
        i = i + 1;
        proof {
            assert(s@.take(i as int).drop_last() =~= s@.take(i - 1));
            assert(s@.take(i as int).last() == s@[i - 1]);
            assert(out@ =~= old(out)@ + "\""@ + json_escaped(s@.take(i as int)));
        }
    }
    out.append("\"");
    proof {
        assert(s@.take(len as int) =~= s@);
        assert(out@ =~= old(out)@ + json_string(s@));
    }
}

/// Appends the compact text of an integer array.
fn append_int_array(out: &mut String, ns: &Vec<i32>)
    requires
        nonneg_seq(ns@),
    ensures
        final(out)@ == old(out)@ + int_array_text(ns@),
{
    out.append("[");
    let len = ns.len();
    let mut i: usize = 0;
    while i < len
        invariant
            len == ns@.len(),
            0 <= i <= len,
            nonneg_seq(ns@),
            out@ == old(out)@ + "["@ + int_array_items(ns@.take(i as int)),
        decreases len - i,
    {
        if i > 0 {
            out.append(",");
        }
        push_decimal(out, ns[i] as u32);
        i = i + 1;
        proof {
            assert(ns@.take(i as int).drop_last() =~= ns@.take(i - 1));
            assert(ns@.take(i as int).last() == ns@[i - 1]);
            if i == 1 {
                assert(int_array_items(ns@.take(1)) =~= dec_str(ns@[0] as nat));
            }
            assert(out@ =~= old(out)@ + "["@ + int_array_items(ns@.take(i as int)));
        }
    }
    out.append("]");
    proof {
        assert(ns@.take(len as int) =~= ns@);
        assert(out@ =~= old(out)@ + int_array_text(ns@));
    }
}

/// Renders the plain-record list as pretty JSON text.
pub fn render_secrets_pretty(entries: &Vec<Secret>) -> (out: String)
    requires
        forall|i: int| 0 <= i < entries@.len() ==> entries@[i].version > 0,
    ensures
        out@ == secrets_pretty_text(entries@),
{
    if entries.len() == 0 {
        return String::from_str("[]");
    }
    let mut out = String::new();
    out.append("[\n");
    let len = entries.len();
    let mut i: usize = 0;
    while i < len
        invariant
            len == entries@.len(),
            0 < len,
            0 <= i <= len,
            forall|k: int| 0 <= k < entries@.len() ==> entries@[k].version > 0,
            out@ == "[\n"@ + pretty_items(entries@.take(i as int)),
        decreases len - i,
    {
        if i == 0 {
            out.append("  ");
        } else {
            out.append(",\n  ");
        }
        let e = &entries[i];
        out.append("{\n    \"version\": ");
        push_decimal(&mut out, e.version as u32);
        out.append(",\n    \"secret\": ");
        append_json_string(&mut out, e.secret.as_str());
        out.append("\n  }");
        i = i + 1;
        proof {
            assert(entries@.take(i as int).drop_last() =~= entries@.take(i - 1));
            assert(entries@.take(i as int).last() == entries@[i - 1]);
            assert(out@ =~= "[\n"@ + pretty_items(entries@.take(i as int)));
        }
    }
    out.append("\n]");
    proof {
        assert(entries@.take(len as int) =~= entries@);
        assert(out@ =~= secrets_pretty_text(entries@));
    }
    out
}

/// Renders the codepoint-record list as compact JSON text.
pub fn render_bytes_compact(entries: &Vec<SecretBytes>) -> (out: String)
    requires
        forall|i: int| 0 <= i < entries@.len() ==> entries@[i].version > 0,
        forall|i: int| 0 <= i < entries@.len() ==> nonneg_seq(#[trigger] entries@[i].secret@),
    ensures
        out@ == bytes_compact_text(entries@),
{
    if entries.len() == 0 {
        return String::from_str("[]");
    }
    let mut out = String::new();
    out.append("[");
    let len = entries.len();
    let mut i: usize = 0;
    while i < len
        invariant
            len == entries@.len(),
            0 < len,
            0 <= i <= len,
            forall|k: int| 0 <= k < entries@.len() ==> entries@[k].version > 0,
            forall|k: int| 0 <= k < entries@.len() ==> nonneg_seq(#[trigger] entries@[k].secret@),
            out@ == "["@ + bytes_items(entries@.take(i as int)),
        decreases len - i,
    {
        if i > 0 {
            out.append(",");
        }
        let e = &entries[i];
        out.append("{\"version\":");
        push_decimal(&mut out, e.version as u32);
        out.append(",\"secret\":");
        append_int_array(&mut out, &e.secret);
        out.append("}");
        i = i + 1;
        proof {
            assert(entries@.take(i as int).drop_last() =~= entries@.take(i - 1));
            assert(entries@.take(i as int).last() == entries@[i - 1]);
            assert(out@ =~= "["@ + bytes_items(entries@.take(i as int)));
        }
    }
    out.append("]");
    proof {
        assert(entries@.take(len as int) =~= entries@);
        assert(out@ =~= bytes_compact_text(entries@));
    }
    out
}

/// Renders the dictionary as compact JSON text.
pub fn render_dict_compact(entries: &Vec<SecretDictEntry>) -> (out: String)
    requires
        forall|i: int| 0 <= i < entries@.len() ==> nonneg_seq(#[trigger] entries@[i].secret@),
    ensures
        out@ == dict_compact_text(entries@),
{
    if entries.len() == 0 {
        return String::from_str("{}");
    }
    let mut out = String::new();
    out.append("{");
    let len = entries.len();
    let mut i: usize = 0;
    while i < len
        invariant
            len == entries@.len(),
            0 < len,
            0 <= i <= len,
            forall|k: int| 0 <= k < entries@.len() ==> nonneg_seq(#[trigger] entries@[k].secret@),
            out@ == "{"@ + dict_items(entries@.take(i as int)),
        decreases len - i,
    {
        if i > 0 {
            out.append(",");
        }
        let e = &entries[i];
        append_json_string(&mut out, e.key.as_str());
        out.append(":");
        append_int_array(&mut out, &e.secret);
        i = i + 1;
        proof {
            assert(entries@.take(i as int).drop_last() =~= entries@.take(i - 1));
            assert(entries@.take(i as int).last() == entries@[i - 1]);
            assert(out@ =~= "{"@ + dict_items(entries@.take(i as int)));
        }
    }
    out.append("}");
    proof {
        assert(entries@.take(len as int) =~= entries@);
        assert(out@ =~= dict_compact_text(entries@));
    }
    out
}

} // verus!
