//! The output side of the pipeline: derives the three representations of
//! the canonical mapping (plain records, codepoint records, dictionary),
//! renders them, and plans the output files.  Writing the bytes to disk is
//! the caller's job; an empty canonical mapping plans no files at all.

use vstd::prelude::*;
use crate::models::{codepoint_seq, to_codepoints, OutputFile, RawRecord, Secret, SecretBytes,
    SecretDict, SecretDictEntry};
use crate::normalize::{canon, normalize, represents, seq_has_pair, versions_positive,
    versions_sorted};
use crate::numerals::{dec_str, decimal_string};
use crate::render::{bytes_compact_text, dict_compact_text, nonneg_seq, render_bytes_compact,
    render_dict_compact, render_secrets_pretty, secrets_pretty_text};

verus! {

/// The codepoint-record list mirrors the plain list entry for entry: same
/// version, and the secret turned into its codepoint array.
pub open spec fn bytes_match(plain: Seq<Secret>, bytes: Seq<SecretBytes>) -> bool {
    &&& bytes.len() == plain.len()
    &&& forall|i: int|
        0 <= i < plain.len() ==> (#[trigger] bytes[i]).version == plain[i].version && bytes[i].secret@
            == codepoint_seq(plain[i].secret@)
}

/// The dictionary mirrors the plain list entry for entry: the decimal
/// string of the version as key, the codepoint array as value.
pub open spec fn dict_match(plain: Seq<Secret>, dict: Seq<SecretDictEntry>) -> bool {
    &&& dict.len() == plain.len()
    &&& forall|i: int|
        0 <= i < plain.len() ==> (#[trigger] dict[i]).key@ == dec_str(plain[i].version as nat)
            && dict[i].secret@ == codepoint_seq(plain[i].secret@)
}

/// Builds the codepoint-record list of the canonical entries.
pub fn to_secret_bytes(entries: &Vec<Secret>) -> (out: Vec<SecretBytes>)
    ensures
        bytes_match(entries@, out@),
{
    let mut out: Vec<SecretBytes> = Vec::new();
    let mut i: usize = 0;
    while i < entries.len()
        invariant
            0 <= i <= entries@.len(),
            out@.len() == i,
            forall|k: int|
                0 <= k < i ==> (#[trigger] out@[k]).version == entries@[k].version && out@[k].secret@
                    == codepoint_seq(entries@[k].secret@),
        decreases entries@.len() - i,
    {
        let e = &entries[i];
        out.push(SecretBytes { version: e.version, secret: to_codepoints(e.secret.as_str()) });
        i = i + 1;
    }
    out
}

/// Builds the dictionary of the canonical entries.
pub fn to_secret_dict(entries: &Vec<Secret>) -> (out: SecretDict)
    requires
        versions_positive(entries@),
    ensures
        dict_match(entries@, out@),
{
    let mut out: SecretDict = Vec::new();
    let mut i: usize = 0;
    while i < entries.len()
        invariant
            0 <= i <= entries@.len(),
            versions_positive(entries@),
            out@.len() == i,
            forall|k: int|
                0 <= k < i ==> (#[trigger] out@[k]).key@ == dec_str(entries@[k].version as nat)
                    && out@[k].secret@ == codepoint_seq(entries@[k].secret@),
        decreases entries@.len() - i,
    {
        let e = &entries[i];
        out.push(
            SecretDictEntry {
                key: decimal_string(e.version as u32),
                secret: to_codepoints(e.secret.as_str()),
            },
        );
        i = i + 1;
    }
    out
}

/// The dictionary representation agrees with the other two: its keys are
/// the decimal string forms of the versions of the plain list, and its
/// values are exactly the codepoint arrays of the codepoint-record list.
pub proof fn lemma_dict_agrees_with_bytes(
    plain: Seq<Secret>,
    bytes: Seq<SecretBytes>,
    dict: Seq<SecretDictEntry>,
)
    requires
        bytes_match(plain, bytes),
        dict_match(plain, dict),
    ensures
        dict.len() == plain.len(),
        bytes.len() == plain.len(),
        forall|i: int|
            0 <= i < plain.len() ==> (#[trigger] dict[i]).key@ == dec_str(
                plain[i].version as nat,
            ),
        forall|i: int| 0 <= i < plain.len() ==> (#[trigger] dict[i]).secret@ == bytes[i].secret@,
{
}

/// Every codepoint array holds only non-negative values (code points).
proof fn lemma_codepoints_nonneg(s: Seq<char>)
    ensures
        nonneg_seq(codepoint_seq(s)),
{
    assert(codepoint_seq(s).len() == s.len());
    assert forall|i: int| 0 <= i < codepoint_seq(s).len() implies codepoint_seq(s)[i] >= 0 by {
        let c = s[i];
        vstd::utf8::char_is_scalar(c);
        assert(codepoint_seq(s)[i] == (c as u32) as i32);
        assert((c as u32) as i32 >= 0);
    }
}

/// Plans the three output files for the canonical representations: the
/// plain list as pretty text, the codepoint list and the dictionary as
/// compact text, under their fixed file names.
pub fn write_files(
    formatted_data: &Vec<Secret>,
    secret_bytes: &Vec<SecretBytes>,
    secret_dict: &SecretDict,
) -> (files: Vec<OutputFile>)
    requires
        versions_positive(formatted_data@),
        bytes_match(formatted_data@, secret_bytes@),
        dict_match(formatted_data@, secret_dict@),
    ensures
        files@.len() == 3,
        files@[0].path@ == "secrets/secrets.json"@,
        files@[0].content@ == secrets_pretty_text(formatted_data@),
        files@[1].path@ == "secrets/secretBytes.json"@,
        files@[1].content@ == bytes_compact_text(secret_bytes@),
        files@[2].path@ == "secrets/secretDict.json"@,
        files@[2].content@ == dict_compact_text(secret_dict@),
{
    proof {
        assert forall|i: int| 0 <= i < secret_bytes@.len() implies nonneg_seq(
            #[trigger] secret_bytes@[i].secret@,
        ) by {
            lemma_codepoints_nonneg(formatted_data@[i].secret@);
        }
        assert forall|i: int| 0 <= i < secret_dict@.len() implies nonneg_seq(
            #[trigger] secret_dict@[i].secret@,
        ) by {
            lemma_codepoints_nonneg(formatted_data@[i].secret@);
        }
    }
    let mut files: Vec<OutputFile> = Vec::new();
    files.push(
        OutputFile {
            path: String::from_str("secrets/secrets.json"),
            content: render_secrets_pretty(formatted_data),
        },
    );
    files.push(
        OutputFile {
            path: String::from_str("secrets/secretBytes.json"),
            content: render_bytes_compact(secret_bytes),
        },
    );
    files.push(
        OutputFile {
            path: String::from_str("secrets/secretDict.json"),
            content: render_dict_compact(secret_dict),
        },
    );
    files
}

/// Normalizes the raw capture records and plans the output files.
///
/// An empty canonical mapping (no raw record survived validation) is a
/// success without output: no file is planned.  Otherwise the three files
/// hold the renders of the canonical entries in ascending version order.
pub fn summarise(records: &Vec<RawRecord>) -> (r: Option<Vec<OutputFile>>)
    ensures
        (r matches Option::None) <==> canon(records@).dom() =~= Set::<int>::empty(),
        r matches Option::Some(files) ==> exists|
            entries: Seq<Secret>,
            bytes: Seq<SecretBytes>,
            dict: Seq<SecretDictEntry>,
        |
            {
                &&& versions_sorted(entries)
                &&& versions_positive(entries)
                &&& represents(entries, canon(records@))
                &&& bytes_match(entries, bytes)
                &&& dict_match(entries, dict)
                &&& files@.len() == 3
                &&& files@[0].path@ == "secrets/secrets.json"@
                &&& files@[0].content@ == secrets_pretty_text(entries)
                &&& files@[1].path@ == "secrets/secretBytes.json"@
                &&& files@[1].content@ == bytes_compact_text(bytes)
                &&& files@[2].path@ == "secrets/secretDict.json"@
                &&& files@[2].content@ == dict_compact_text(dict)
            },
{
    let entries = normalize(records);
    if entries.len() == 0 {
        proof {
            assert forall|v: int| !canon(records@).dom().contains(v) by {
                if canon(records@).dom().contains(v) {
                    let c = canon(records@)[v];
                    assert(canon(records@).contains_pair(v, c));
                    assert(seq_has_pair(entries@, v, c));
                }
            }
            assert(canon(records@).dom() =~= Set::<int>::empty());
        }
        return Option::None;
    }
    proof {
        assert(seq_has_pair(entries@, entries@[0].version as int, entries@[0].secret@));
        assert(canon(records@).dom().contains(entries@[0].version as int));
        assert(!(canon(records@).dom() =~= Set::<int>::empty()));
    }
    let bytes = to_secret_bytes(&entries);
    let dict = to_secret_dict(&entries);
    let files = write_files(&entries, &bytes, &dict);
    proof {
        assert(versions_sorted(entries@) && versions_positive(entries@) && represents(
            entries@,
            canon(records@),
        ) && bytes_match(entries@, bytes@) && dict_match(entries@, dict@) && files@.len() == 3
            && files@[0].path@ == "secrets/secrets.json"@ && files@[0].content@
            == secrets_pretty_text(entries@) && files@[1].path@ == "secrets/secretBytes.json"@
            && files@[1].content@ == bytes_compact_text(bytes@) && files@[2].path@
            == "secrets/secretDict.json"@ && files@[2].content@ == dict_compact_text(dict@));
    }
    Option::Some(files)
}

} // verus!
