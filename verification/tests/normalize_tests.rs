use secret_grabber::models::{FieldVal, RawRecord};
use secret_grabber::normalize::{normalize, resolve_version};
use secret_grabber::numerals::{decimal_string, parse_version_str};

fn raw(secret: FieldVal, version: FieldVal, obj_version: FieldVal) -> RawRecord {
    RawRecord { secret, version, obj_version }
}

fn text(s: &str) -> FieldVal {
    FieldVal::Text(s.to_string())
}

#[test]
fn nonstring_secret_is_excluded() {
    let records = vec![
        raw(FieldVal::IntVal(7), FieldVal::IntVal(1), FieldVal::Absent),
        raw(FieldVal::Absent, FieldVal::IntVal(2), FieldVal::Absent),
        raw(FieldVal::NonIntNum, FieldVal::IntVal(3), FieldVal::Absent),
        raw(text("keep"), FieldVal::IntVal(4), FieldVal::Absent),
    ];
    let out = normalize(&records);
    assert_eq!(out.len(), 1);
    assert_eq!(out[0].version, 4);
    assert_eq!(out[0].secret, "keep");
}

#[test]
fn nonpositive_version_is_excluded() {
    let records = vec![
        raw(text("zero"), FieldVal::IntVal(0), FieldVal::Absent),
        raw(text("negative"), FieldVal::IntVal(-3), FieldVal::Absent),
        raw(text("unresolved"), FieldVal::Absent, FieldVal::Absent),
        raw(text("bad-string"), text("not a number"), FieldVal::Absent),
        raw(text("float"), FieldVal::NonIntNum, FieldVal::Absent),
        raw(text("kept"), FieldVal::IntVal(9), FieldVal::Absent),
    ];
    let out = normalize(&records);
    assert_eq!(out.len(), 1);
    assert_eq!(out[0].version, 9);
    assert_eq!(out[0].secret, "kept");
}

#[test]
fn later_record_wins_shared_version() {
    let records = vec![
        raw(text("first"), FieldVal::IntVal(5), FieldVal::Absent),
        raw(text("second"), FieldVal::IntVal(5), FieldVal::Absent),
    ];
    let out = normalize(&records);
    assert_eq!(out.len(), 1);
    assert_eq!(out[0].version, 5);
    assert_eq!(out[0].secret, "second");
}

#[test]
fn worked_example() {
    let records = vec![
        raw(text("s1"), FieldVal::IntVal(1), FieldVal::Absent),
        raw(text("s1-b"), FieldVal::IntVal(1), FieldVal::Absent),
        raw(text("s2"), text("2"), FieldVal::Absent),
    ];
    let out = normalize(&records);
    assert_eq!(out.len(), 2);
    assert_eq!(out[0].version, 1);
    assert_eq!(out[0].secret, "s1-b");
    assert_eq!(out[1].version, 2);
    assert_eq!(out[1].secret, "s2");
}

#[test]
fn output_is_sorted_ascending() {
    let records = vec![
        raw(text("c"), FieldVal::IntVal(30), FieldVal::Absent),
        raw(text("a"), FieldVal::IntVal(10), FieldVal::Absent),
        raw(text("b"), FieldVal::IntVal(20), FieldVal::Absent),
    ];
    let out = normalize(&records);
    let versions: Vec<i32> = out.iter().map(|e| e.version).collect();
    assert_eq!(versions, vec![10, 20, 30]);
    let secrets: Vec<&str> = out.iter().map(|e| e.secret.as_str()).collect();
    assert_eq!(secrets, vec!["a", "b", "c"]);
}

#[test]
fn version_falls_back_to_nested_object() {
    let records = vec![
        raw(text("nested-num"), FieldVal::Absent, FieldVal::IntVal(6)),
        raw(text("nested-str"), FieldVal::Absent, text("7")),
        raw(text("nested-bad"), FieldVal::Absent, text("x")),
    ];
    let out = normalize(&records);
    assert_eq!(out.len(), 2);
    assert_eq!(out[0].version, 6);
    assert_eq!(out[0].secret, "nested-num");
    assert_eq!(out[1].version, 7);
    assert_eq!(out[1].secret, "nested-str");
}

#[test]
fn top_level_string_does_not_fall_back() {
    // a malformed top-level version string resolves to the sentinel 0 and is
    // excluded; it does not fall through to the nested version
    let records = vec![raw(text("s"), text("oops"), FieldVal::IntVal(3))];
    let out = normalize(&records);
    assert!(out.is_empty());
}

#[test]
fn version_outside_i32_range_is_sentinel() {
    let records = vec![
        raw(text("big"), FieldVal::IntVal(0x8000_0000), FieldVal::Absent),
        raw(text("small"), FieldVal::IntVal(-0x8000_0001), FieldVal::Absent),
    ];
    let out = normalize(&records);
    assert!(out.is_empty());
}

#[test]
fn resolve_version_prefers_top_level() {
    let r = raw(text("s"), FieldVal::IntVal(2), FieldVal::IntVal(9));
    assert_eq!(resolve_version(&r), 2);
}

#[test]
fn parse_version_str_accepts_decimal() {
    assert_eq!(parse_version_str("12"), 12);
    assert_eq!(parse_version_str("+12"), 12);
    assert_eq!(parse_version_str("-12"), -12);
    assert_eq!(parse_version_str("0012"), 12);
    assert_eq!(parse_version_str("0"), 0);
    assert_eq!(parse_version_str("2147483647"), 2147483647);
    assert_eq!(parse_version_str("-2147483648"), -2147483648);
}

#[test]
fn parse_version_str_rejects_malformed() {
    assert_eq!(parse_version_str(""), 0);
    assert_eq!(parse_version_str("+"), 0);
    assert_eq!(parse_version_str("-"), 0);
    assert_eq!(parse_version_str(" 1"), 0);
    assert_eq!(parse_version_str("1 "), 0);
    assert_eq!(parse_version_str("1e3"), 0);
    assert_eq!(parse_version_str("12.5"), 0);
    assert_eq!(parse_version_str("2147483648"), 0);
    assert_eq!(parse_version_str("-2147483649"), 0);
    assert_eq!(parse_version_str("99999999999999999999"), 0);
}

#[test]
fn parse_version_str_matches_std_parse() {
    for s in [
        "", "0", "7", "+7", "-7", "007", "2147483647", "2147483648", "-2147483648",
        "-2147483649", "abc", "1a", " 1", "++1", "--1", "99999999999999999999",
    ] {
        assert_eq!(parse_version_str(s), s.parse::<i32>().unwrap_or(0), "input {:?}", s);
    }
}

#[test]
fn decimal_string_matches_std_to_string() {
    for n in [0u32, 1, 9, 10, 42, 100, 12345, 2147483647, 4294967295] {
        assert_eq!(decimal_string(n), n.to_string());
    }
}
