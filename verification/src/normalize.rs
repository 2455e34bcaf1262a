//! The normalizer/deduplicator: validates loosely typed capture records and
//! folds them, in capture order, into the canonical version-to-secret
//! mapping (strictly positive versions, unique, last write wins).

use vstd::prelude::*;
use crate::models::{FieldVal, RawRecord, Secret};
use crate::numerals::{parse_i32_or_zero, parse_version_str};

verus! {

/// What a single `version`-shaped field contributes: `Some(v)` if the field
/// decides the version by itself (a number, clamped to the sentinel 0 when
/// not a 32-bit integer, or a string parsed as a decimal integer with parse
/// failure defaulting to 0), `None` if resolution must fall through to the
/// next source.
pub open spec fn field_version(f: FieldVal) -> Option<int> {
    match f {
        FieldVal::IntVal(n) => Option::Some(
            if -0x8000_0000 <= n <= 0x7fff_ffff {
                n as int
            } else {
                0
            },
        ),
        FieldVal::NonIntNum => Option::Some(0),
        FieldVal::Text(s) => Option::Some(parse_i32_or_zero(s@)),
        FieldVal::Absent => Option::None,
    }
}

/// The resolved version of a record: the top-level `version` field if it is
/// a number or a string, else the `version` field nested in the captured
/// object, else the sentinel 0.
pub open spec fn resolved_version(r: RawRecord) -> int {
    match field_version(r.version) {
        Option::Some(v) => v,
        Option::None => match field_version(r.obj_version) {
            Option::Some(v) => v,
            Option::None => 0,
        },
    }
}

/// Whether the record's `secret` field is a string.
pub open spec fn has_secret(r: RawRecord) -> bool {
    r.secret matches FieldVal::Text(_)
}

/// The record's secret string (meaningful only when `has_secret` holds).
pub open spec fn record_secret(r: RawRecord) -> Seq<char> {
    match r.secret {
        FieldVal::Text(s) => s@,
        _ => Seq::empty(),
    }
}

/// A record enters the canonical mapping exactly when its secret is a
/// string and its resolved version is strictly positive.
pub open spec fn record_valid(r: RawRecord) -> bool {
    has_secret(r) && resolved_version(r) > 0
}

/// The canonical mapping of a capture sequence: valid records folded in
/// capture order, a later record overwriting an earlier one with the same
/// resolved version.
pub open spec fn canon(s: Seq<RawRecord>) -> Map<int, Seq<char>>
    decreases s.len(),
{
    if s.len() == 0 {
        Map::empty()
    } else {
        let m = canon(s.drop_last());
        if record_valid(s.last()) {
            m.insert(resolved_version(s.last()), record_secret(s.last()))
        } else {
            m
        }
    }
}

/// Versions strictly increase along the sequence (so they are unique and
/// the sequence is in ascending version order).
pub open spec fn versions_sorted(s: Seq<Secret>) -> bool {
    forall|i: int, j: int| 0 <= i < j < s.len() ==> s[i].version < s[j].version
}

/// Every version in the sequence is strictly positive.
pub open spec fn versions_positive(s: Seq<Secret>) -> bool {
    forall|i: int| 0 <= i < s.len() ==> s[i].version > 0
}

/// Whether the entry sequence holds the pair `(v, c)`.
pub open spec fn seq_has_pair(s: Seq<Secret>, v: int, c: Seq<char>) -> bool {
    exists|i: int| 0 <= i < s.len() && s[i].version == v && s[i].secret@ == c
}

/// The entry sequence holds exactly the pairs of the mapping `m`.
pub open spec fn represents(s: Seq<Secret>, m: Map<int, Seq<char>>) -> bool {
    forall|v: int, c: Seq<char>| seq_has_pair(s, v, c) <==> m.contains_pair(v, c)
}

/// Resolves the version of a raw record as the normalizer sees it.
pub fn resolve_version(r: &RawRecord) -> (v: i32)
    ensures
        v as int == resolved_version(*r),
{
    match &r.version {
        FieldVal::IntVal(n) => {
            let n = *n;
            if -0x8000_0000i64 <= n && n <= 0x7fff_ffffi64 {
                n as i32
            } else {
                0
            }
        },
        FieldVal::NonIntNum => 0,
        FieldVal::Text(s) => parse_version_str(s.as_str()),
        FieldVal::Absent => match &r.obj_version {
            FieldVal::IntVal(n) => {
                let n = *n;
                if -0x8000_0000i64 <= n && n <= 0x7fff_ffffi64 {
                    n as i32
                } else {
                    0
                }
            },
            FieldVal::NonIntNum => 0,
            FieldVal::Text(s) => parse_version_str(s.as_str()),
            FieldVal::Absent => 0,
        },
    }
}

/// Inserts `(version, secret)` into an ascending entry sequence, replacing
/// the entry with the same version if one is there.
fn upsert(out: &mut Vec<Secret>, version: i32, secret: String)
    requires
        versions_sorted(old(out)@),
        versions_positive(old(out)@),
        version > 0,
    ensures
        versions_sorted(final(out)@),
        versions_positive(final(out)@),
        forall|v: int, c: Seq<char>|
            #[trigger] seq_has_pair(final(out)@, v, c) <==> (if v == version as int {
                c == secret@
            } else {
                seq_has_pair(old(out)@, v, c)
            }),
{
    let mut p: usize = 0;
    while p < out.len() && out[p].version < version
        invariant
            0 <= p <= out@.len(),
            forall|i: int| 0 <= i < p ==> out@[i].version < version,
            out@ == old(out)@,
        decreases out@.len() - p,
    {
        p = p + 1;
    }
    let entry = Secret { version, secret };
    if p < out.len() && out[p].version == version {
        let ghost prev = out@;
        out.remove(p);
        out.insert(p, entry);
        proof {
            assert(out@ =~= prev.update(p as int, Secret { version, secret: secret }));
            assert forall|v: int, c: Seq<char>|
                #[trigger] seq_has_pair(out@, v, c) <==> (if v == version as int {
                    c == secret@
                } else {
                    seq_has_pair(prev, v, c)
                }) by {
                if v == version as int {
                    if seq_has_pair(out@, v, c) {
                        let i = choose|i: int|
                            0 <= i < out@.len() && out@[i].version == v && out@[i].secret@ == c;
                        assert(i == p);
                    }
                    if c == secret@ {
                        assert(out@[p as int].version == v && out@[p as int].secret@ == c);
                    }
                } else {
                    if seq_has_pair(out@, v, c) {
                        let i = choose|i: int|
                            0 <= i < out@.len() && out@[i].version == v && out@[i].secret@ == c;
                        assert(prev[i].version == v && prev[i].secret@ == c);
                    }
                    if seq_has_pair(prev, v, c) {
                        let i = choose|i: int|
                            0 <= i < prev.len() && prev[i].version == v && prev[i].secret@ == c;
                        assert(out@[i].version == v && out@[i].secret@ == c);
                    }
                }
            }
        }
    } else {
        let ghost prev = out@;
        out.insert(p, entry);
        proof {
            assert(out@.len() == prev.len() + 1);
            assert(forall|i: int| 0 <= i < p ==> out@[i] == prev[i]);
            assert(out@[p as int] == Secret { version, secret: secret });
            assert(forall|i: int| p < i < out@.len() ==> out@[i] == prev[i - 1]);
            assert forall|i: int, j: int| 0 <= i < j < out@.len() implies out@[i].version
                < out@[j].version by {
                if i < p && j == p {
                    assert(prev[i].version < version);
                } else if i == p && j > p {
                    assert(prev[j - 1].version >= version);
                    assert(prev[j - 1].version != version);
                }
            }
            assert forall|v: int, c: Seq<char>|
                #[trigger] seq_has_pair(out@, v, c) <==> (if v == version as int {
                    c == secret@
                } else {
                    seq_has_pair(prev, v, c)
                }) by {
                if v == version as int {
                    if seq_has_pair(out@, v, c) {
                        let i = choose|i: int|
                            0 <= i < out@.len() && out@[i].version == v && out@[i].secret@ == c;
                        if i < p {
                            assert(prev[i].version < version);
                        } else if i > p {
                            assert(prev[i - 1].version != version);
                        }
                        assert(i == p);
                    }
                    if c == secret@ {
                        assert(out@[p as int].version == v && out@[p as int].secret@ == c);
                    }
                } else {
                    if seq_has_pair(out@, v, c) {
                        let i = choose|i: int|
                            0 <= i < out@.len() && out@[i].version == v && out@[i].secret@ == c;
                        if i < p {
                            assert(prev[i].version == v && prev[i].secret@ == c);
                        } else {
                            assert(prev[i - 1].version == v && prev[i - 1].secret@ == c);
                        }
                    }
                    if seq_has_pair(prev, v, c) {
                        let i = choose|i: int|
                            0 <= i < prev.len() && prev[i].version == v && prev[i].secret@ == c;
                        if i < p {
                            assert(out@[i].version == v && out@[i].secret@ == c);
                        } else {
                            assert(out@[i + 1].version == v && out@[i + 1].secret@ == c);
                        }
                    }
                }
            }
        }
    }
}

/// Folding one more record into the canonical mapping.
proof fn lemma_canon_step(s: Seq<RawRecord>, idx: int)
    requires
        0 <= idx < s.len(),
    ensures
        canon(s.take(idx + 1)) == (if record_valid(s[idx]) {
            canon(s.take(idx)).insert(resolved_version(s[idx]), record_secret(s[idx]))
        } else {
            canon(s.take(idx))
        }),
{
    assert(s.take(idx + 1).drop_last() =~= s.take(idx));
    assert(s.take(idx + 1).last() == s[idx]);
}

/// Builds the canonical mapping from the raw capture records: one entry per
/// strictly positive resolved version, in ascending version order, holding
/// the secret of the last valid record with that version.
pub fn normalize(records: &Vec<RawRecord>) -> (out: Vec<Secret>)
    ensures
        versions_sorted(out@),
        versions_positive(out@),
        represents(out@, canon(records@)),
{
    let mut out: Vec<Secret> = Vec::new();
    let mut idx: usize = 0;
    proof {
        assert(records@.take(0) =~= Seq::<RawRecord>::empty());
    }
    while idx < records.len()
        invariant
            0 <= idx <= records@.len(),
            versions_sorted(out@),
            versions_positive(out@),
            represents(out@, canon(records@.take(idx as int))),
        decreases records@.len() - idx,
    {
        let rec = &records[idx];
        let ghost before = out@;
        let v = resolve_version(rec);
        if v > 0 {
            match &rec.secret {
                FieldVal::Text(s) => {
                    upsert(&mut out, v, s.clone());
                },
                _ => {},
            }
        }
        proof {
            lemma_canon_step(records@, idx as int);
            let m0 = canon(records@.take(idx as int));
            let m1 = canon(records@.take(idx + 1));
            if record_valid(records@[idx as int]) {
                assert(m1 == m0.insert(resolved_version(records@[idx as int]), record_secret(records@[idx as int])));
                assert forall|vv: int, c: Seq<char>| #[trigger]
                    seq_has_pair(out@, vv, c) <==> m1.contains_pair(vv, c) by {
                    assert(seq_has_pair(before, vv, c) <==> m0.contains_pair(vv, c));
                }
            } else {
                assert(out@ == before);
                assert(m1 == m0);
            }
        }
        idx = idx + 1;
    }
    proof {
        assert(records@.take(records@.len() as int) =~= records@);
    }
    out
}

/// A record that fails validation contributes nothing: removing it leaves
/// the canonical mapping unchanged.
proof fn lemma_invalid_removed(s: Seq<RawRecord>, i: int)
    requires
        0 <= i < s.len(),
        !record_valid(s[i]),
    ensures
        canon(s) == canon(s.remove(i)),
    decreases s.len(),
{
    if i == s.len() - 1 {
        assert(s.remove(i) =~= s.drop_last());
    } else {
        let t = s.drop_last();
        lemma_invalid_removed(t, i);
        assert(s.remove(i).drop_last() =~= t.remove(i));
        assert(s.remove(i).last() == s.last());
    }
}

/// A raw record whose `secret` field is not a string is excluded from the
/// canonical mapping: the capture sequence without it normalizes to the
/// same mapping.
pub proof fn lemma_nonstring_secret_excluded(s: Seq<RawRecord>, i: int)
    requires
        0 <= i < s.len(),
        !has_secret(s[i]),
    ensures
        canon(s) == canon(s.remove(i)),
{
    lemma_invalid_removed(s, i);
}

/// A raw record whose resolved version is not strictly positive (including
/// the unresolved default 0) is excluded from the canonical mapping.
pub proof fn lemma_nonpositive_version_excluded(s: Seq<RawRecord>, i: int)
    requires
        0 <= i < s.len(),
        resolved_version(s[i]) <= 0,
    ensures
        canon(s) == canon(s.remove(i)),
{
    lemma_invalid_removed(s, i);
}

/// Last write wins: when no later valid record bears the same resolved
/// version, the canonical secret for the version of a valid record is that
/// record's secret.  In particular, of two valid records sharing a version
/// the later one decides.
pub proof fn lemma_last_write_wins(s: Seq<RawRecord>, j: int)
    requires
        0 <= j < s.len(),
        record_valid(s[j]),
        forall|k: int|
            j < k < s.len() ==> !(record_valid(s[k]) && resolved_version(s[k])
                == resolved_version(s[j])),
    ensures
        canon(s).contains_pair(resolved_version(s[j]), record_secret(s[j])),
    decreases s.len(),
{
    if j < s.len() - 1 {
        let t = s.drop_last();
        lemma_last_write_wins(t, j);
    }
}

/// The raw record a plain canonical entry reads back as: the secret as a
/// string field, the version as a numeric field, nothing nested.
pub open spec fn as_raw(e: Secret) -> RawRecord {
    RawRecord {
        secret: FieldVal::Text(e.secret),
        version: FieldVal::IntVal(e.version as i64),
        obj_version: FieldVal::Absent,
    }
}

/// Round trip: re-parsing the plain-record representation of a canonical
/// entry sequence as raw captures normalizes back to exactly the pairs of
/// that sequence.
pub proof fn lemma_round_trip(entries: Seq<Secret>)
    requires
        versions_sorted(entries),
        versions_positive(entries),
    ensures
        represents(entries, canon(entries.map_values(|e: Secret| as_raw(e)))),
    decreases entries.len(),
{
    let raws = entries.map_values(|e: Secret| as_raw(e));
    if entries.len() == 0 {
        assert forall|v: int, c: Seq<char>|
            seq_has_pair(entries, v, c) <==> canon(raws).contains_pair(v, c) by {
            assert(!seq_has_pair(entries, v, c));
        }
    } else {
        let t = entries.drop_last();
        let e = entries.last();
        lemma_round_trip(t);
        let traws = t.map_values(|x: Secret| as_raw(x));
        assert(raws.drop_last() =~= traws);
        assert(raws.last() == as_raw(e));
        assert(record_valid(as_raw(e)));
        assert(resolved_version(as_raw(e)) == e.version as int);
        assert(record_secret(as_raw(e)) == e.secret@);
        assert(canon(raws) == canon(traws).insert(e.version as int, e.secret@));
        assert forall|v: int, c: Seq<char>|
            seq_has_pair(entries, v, c) <==> canon(raws).contains_pair(v, c) by {
            if v == e.version as int {
                if seq_has_pair(entries, v, c) {
                    let i = choose|i: int|
                        0 <= i < entries.len() && entries[i].version == v && entries[i].secret@
                            == c;
                    assert(i == entries.len() - 1);
                }
                if canon(raws).contains_pair(v, c) {
                    assert(entries[entries.len() - 1].version == v && entries[entries.len()
                        - 1].secret@ == c);
                }
            } else {
                if seq_has_pair(entries, v, c) {
                    let i = choose|i: int|
                        0 <= i < entries.len() && entries[i].version == v && entries[i].secret@
                            == c;
                    assert(i < entries.len() - 1);
                    assert(t[i].version == v && t[i].secret@ == c);
                    assert(seq_has_pair(t, v, c));
                }
                if canon(raws).contains_pair(v, c) {
                    assert(canon(traws).contains_pair(v, c));
                    assert(seq_has_pair(t, v, c));
                    let i = choose|i: int|
                        0 <= i < t.len() && t[i].version == v && t[i].secret@ == c;
                    assert(entries[i].version == v && entries[i].secret@ == c);
                }
            }
        }
    }
}

/// An ascending entry sequence is determined by its pairs: two sorted
/// sequences holding the same pairs agree entry for entry.
pub proof fn lemma_sorted_representation_unique(a: Seq<Secret>, b: Seq<Secret>)
    requires
        versions_sorted(a),
        versions_sorted(b),
        forall|v: int, c: Seq<char>| seq_has_pair(a, v, c) <==> seq_has_pair(b, v, c),
    ensures
        a.len() == b.len(),
        forall|i: int|
            0 <= i < a.len() ==> a[i].version == b[i].version && a[i].secret@ == b[i].secret@,
    decreases a.len(),
{
    if a.len() == 0 {
        if b.len() > 0 {
            assert(seq_has_pair(b, b[0].version as int, b[0].secret@));
            assert(seq_has_pair(a, b[0].version as int, b[0].secret@));
            let i = choose|i: int|
                0 <= i < a.len() && a[i].version == b[0].version as int && a[i].secret@
                    == b[0].secret@;
            assert(false);
        }
    } else if b.len() == 0 {
        assert(seq_has_pair(a, a[0].version as int, a[0].secret@));
        assert(seq_has_pair(b, a[0].version as int, a[0].secret@));
        let i = choose|i: int|
            0 <= i < b.len() && b[i].version == a[0].version as int && b[i].secret@
                == a[0].secret@;
        assert(false);
    } else {
        let la = a.last();
        let lb = b.last();
        assert(seq_has_pair(a, la.version as int, la.secret@)) by {
            assert(a[a.len() - 1].version == la.version as int && a[a.len() - 1].secret@
                == la.secret@);
        }
        assert(seq_has_pair(b, lb.version as int, lb.secret@)) by {
            assert(b[b.len() - 1].version == lb.version as int && b[b.len() - 1].secret@
                == lb.secret@);
        }
        let ia = choose|i: int|
            0 <= i < b.len() && b[i].version == la.version as int && b[i].secret@ == la.secret@;
        let jb = choose|i: int|
            0 <= i < a.len() && a[i].version == lb.version as int && a[i].secret@ == lb.secret@;
        assert(b[ia].version <= lb.version);
        assert(a[jb].version <= la.version);
        assert(la.version == lb.version);
        assert(ia == b.len() - 1);
        assert(la.secret@ == lb.secret@);
        let ta = a.drop_last();
        let tb = b.drop_last();
        assert forall|v: int, c: Seq<char>|
            seq_has_pair(ta, v, c) <==> seq_has_pair(tb, v, c) by {
            if seq_has_pair(ta, v, c) {
                let i = choose|i: int|
                    0 <= i < ta.len() && ta[i].version == v && ta[i].secret@ == c;
                assert(a[i].version == v && a[i].secret@ == c);
                assert(seq_has_pair(a, v, c));
                assert(v < la.version as int);
                let k = choose|k: int|
                    0 <= k < b.len() && b[k].version == v && b[k].secret@ == c;
                assert(k < b.len() - 1);
                assert(tb[k].version == v && tb[k].secret@ == c);
                assert(seq_has_pair(tb, v, c));
            }
            if seq_has_pair(tb, v, c) {
                let i = choose|i: int|
                    0 <= i < tb.len() && tb[i].version == v && tb[i].secret@ == c;
                assert(b[i].version == v && b[i].secret@ == c);
                assert(seq_has_pair(b, v, c));
                assert(v < lb.version as int);
                let k = choose|k: int|
                    0 <= k < a.len() && a[k].version == v && a[k].secret@ == c;
                assert(k < a.len() - 1);
                assert(ta[k].version == v && ta[k].secret@ == c);
                assert(seq_has_pair(ta, v, c));
            }
        }
        lemma_sorted_representation_unique(ta, tb);
        assert forall|i: int|
            0 <= i < a.len() implies a[i].version == b[i].version && a[i].secret@
            == b[i].secret@ by {
            if i < a.len() - 1 {
                assert(ta[i].version == tb[i].version && ta[i].secret@ == tb[i].secret@);
            }
        }
    }
}

} // verus!
