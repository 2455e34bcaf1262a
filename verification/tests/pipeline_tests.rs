use secret_grabber::capture::{extract_records, CaptureOutcome};
use secret_grabber::models::{FieldVal, RawRecord};
use secret_grabber::normalize::normalize;
use secret_grabber::summarizer::{summarise, to_secret_bytes, to_secret_dict, write_files};
use serde_json::Value;

fn record(secret: &str, version: FieldVal) -> RawRecord {
    RawRecord { secret: FieldVal::Text(secret.to_string()), version, obj_version: FieldVal::Absent }
}

#[test]
fn summarise_empty_input_plans_no_files() {
    let files = summarise(&Vec::new());
    assert!(files.is_none());
}

#[test]
fn summarise_all_invalid_plans_no_files() {
    let records = vec![
        record("no version", FieldVal::Absent),
        record("zero", FieldVal::IntVal(0)),
        RawRecord {
            secret: FieldVal::IntVal(1),
            version: FieldVal::IntVal(1),
            obj_version: FieldVal::Absent,
        },
    ];
    assert!(summarise(&records).is_none());
}

#[test]
fn summarise_plans_three_files() {
    let records = vec![
        record("s1", FieldVal::IntVal(1)),
        record("s1-b", FieldVal::IntVal(1)),
        record("s2", FieldVal::Text("2".to_string())),
    ];
    let files = summarise(&records).unwrap();
    assert_eq!(files.len(), 3);
    assert_eq!(files[0].path, "secrets/secrets.json");
    assert_eq!(files[1].path, "secrets/secretBytes.json");
    assert_eq!(files[2].path, "secrets/secretDict.json");
    assert_eq!(
        files[0].content,
        "[\n  {\n    \"version\": 1,\n    \"secret\": \"s1-b\"\n  },\n  {\n    \"version\": 2,\n    \"secret\": \"s2\"\n  }\n]"
    );
    assert_eq!(
        files[1].content,
        "[{\"version\":1,\"secret\":[115,49,45,98]},{\"version\":2,\"secret\":[115,50]}]"
    );
    assert_eq!(files[2].content, "{\"1\":[115,49,45,98],\"2\":[115,50]}");
}

#[test]
fn round_trip_through_rendered_text() {
    let records = vec![
        record("alpha", FieldVal::IntVal(3)),
        record("beta", FieldVal::IntVal(1)),
        record("gamma\n\"quoted\"", FieldVal::IntVal(2)),
    ];
    let entries = normalize(&records);
    let files = summarise(&records).unwrap();
    let parsed: Value = serde_json::from_str(&files[0].content).unwrap();
    let arr = parsed.as_array().unwrap();
    assert_eq!(arr.len(), entries.len());
    // re-parse the plain representation as raw records and normalize again
    let mut reparsed: Vec<RawRecord> = Vec::new();
    for item in arr {
        let version = item.get("version").unwrap().as_i64().unwrap();
        let secret = item.get("secret").unwrap().as_str().unwrap();
        reparsed.push(RawRecord {
            secret: FieldVal::Text(secret.to_string()),
            version: FieldVal::IntVal(version),
            obj_version: FieldVal::Absent,
        });
    }
    let again = normalize(&reparsed);
    assert_eq!(again.len(), entries.len());
    for (a, b) in again.iter().zip(entries.iter()) {
        assert_eq!(a.version, b.version);
        assert_eq!(a.secret, b.secret);
    }
}

#[test]
fn dict_agrees_with_plain_and_bytes_files() {
    let records = vec![
        record("one", FieldVal::IntVal(1)),
        record("twelve", FieldVal::IntVal(12)),
        record("two", FieldVal::IntVal(2)),
    ];
    let files = summarise(&records).unwrap();
    let plain: Value = serde_json::from_str(&files[0].content).unwrap();
    let bytes: Value = serde_json::from_str(&files[1].content).unwrap();
    let dict: Value = serde_json::from_str(&files[2].content).unwrap();
    let plain = plain.as_array().unwrap();
    let bytes = bytes.as_array().unwrap();
    let dict = dict.as_object().unwrap();
    assert_eq!(dict.len(), plain.len());
    for (p, b) in plain.iter().zip(bytes.iter()) {
        let version = p.get("version").unwrap().as_i64().unwrap();
        let key = version.to_string();
        assert!(dict.contains_key(&key), "missing dict key {}", key);
        assert_eq!(dict[&key], *b.get("secret").unwrap());
    }
}

#[test]
fn write_files_uses_fixed_paths() {
    let entries = normalize(&vec![record("s", FieldVal::IntVal(1))]);
    let bytes = to_secret_bytes(&entries);
    let dict = to_secret_dict(&entries);
    let files = write_files(&entries, &bytes, &dict);
    let paths: Vec<&str> = files.iter().map(|f| f.path.as_str()).collect();
    assert_eq!(paths, vec!["secrets/secrets.json", "secrets/secretBytes.json", "secrets/secretDict.json"]);
}

#[test]
fn representations_mirror_entries() {
    let entries = normalize(&vec![
        record("AB", FieldVal::IntVal(2)),
        record("\u{1F600}", FieldVal::IntVal(7)),
    ]);
    let bytes = to_secret_bytes(&entries);
    assert_eq!(bytes.len(), 2);
    assert_eq!(bytes[0].version, 2);
    assert_eq!(bytes[0].secret, vec![65, 66]);
    assert_eq!(bytes[1].version, 7);
    assert_eq!(bytes[1].secret, vec![0x1F600]);
    let dict = to_secret_dict(&entries);
    assert_eq!(dict[0].key, "2");
    assert_eq!(dict[0].secret, vec![65, 66]);
    assert_eq!(dict[1].key, "7");
    assert_eq!(dict[1].secret, vec![0x1F600]);
}

#[test]
fn extraction_failures_degrade_to_empty() {
    assert!(extract_records(CaptureOutcome::EvalFailed).is_empty());
    assert!(extract_records(CaptureOutcome::MissingValue).is_empty());
    assert!(extract_records(CaptureOutcome::NonStringValue).is_empty());
    assert!(extract_records(CaptureOutcome::Malformed).is_empty());
}

#[test]
fn extraction_success_hands_records_through() {
    let records = vec![record("s", FieldVal::IntVal(1))];
    let out = extract_records(CaptureOutcome::Parsed(records));
    assert_eq!(out.len(), 1);
    assert!(matches!(&out[0].secret, FieldVal::Text(s) if s == "s"));
}
