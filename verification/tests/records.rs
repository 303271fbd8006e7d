use timecapsule::codec::{record_from_bytes, record_to_bytes};
use timecapsule::crypto::TimeLockedMessage;
use timecapsule::storage::{check_message_id, decode_records, new_message_id, record_file_name};
use timecapsule::timestamp::{ts_from_rfc3339, Timestamp};
use timecapsule::TimeLockError;

fn ts(secs: i64) -> Timestamp {
    Timestamp { secs }
}

fn assert_same(a: &TimeLockedMessage, b: &TimeLockedMessage) {
    assert_eq!(a.encrypted_content, b.encrypted_content);
    assert_eq!(a.nonce, b.nonce);
    assert_eq!(a.salt, b.salt);
    assert_eq!(a.password_hash, b.password_hash);
    assert_eq!(a.unlock_date, b.unlock_date);
    assert_eq!(a.label, b.label);
    assert_eq!(a.created_at, b.created_at);
}

#[test]
fn record_round_trip_without_label() {
    let m = TimeLockedMessage::new_at("body", "pw", ts(1000), None, ts(500)).unwrap();
    let bytes = record_to_bytes(&m);
    let back = record_from_bytes(bytes.as_slice()).unwrap();
    assert_same(&m, &back);
}

#[test]
fn record_round_trip_with_plain_label() {
    let m =
        TimeLockedMessage::new_at("body", "pw", ts(1000), Some("note".to_string()), ts(500))
            .unwrap();
    let back = record_from_bytes(record_to_bytes(&m).as_slice()).unwrap();
    assert_same(&m, &back);
}

#[test]
fn record_round_trip_with_escaped_label() {
    let label = "has \"quotes\", a \\ backslash,\na newline, tab\t and a \u{1} control";
    let m = TimeLockedMessage::new_at("body", "pw", ts(1000), Some(label.to_string()), ts(500))
        .unwrap();
    let back = record_from_bytes(record_to_bytes(&m).as_slice()).unwrap();
    assert_same(&m, &back);
    assert_eq!(back.label.as_deref(), Some(label));
}

#[test]
fn record_is_valid_json_with_expected_fields() {
    let m = TimeLockedMessage::new_at(
        "body",
        "pw",
        ts(4070908800),
        Some("a label".to_string()),
        ts(1700000000),
    )
    .unwrap();
    let bytes = record_to_bytes(&m);
    let text = String::from_utf8(bytes).unwrap();
    let v: serde_json::Value = serde_json::from_str(&text).unwrap();
    assert_eq!(v["encrypted_content"].as_str().unwrap(), m.encrypted_content);
    assert_eq!(v["nonce"].as_str().unwrap(), m.nonce);
    assert_eq!(v["salt"].as_str().unwrap(), m.salt);
    assert_eq!(v["password_hash"].as_str().unwrap(), m.password_hash);
    assert_eq!(v["unlock_date"].as_str().unwrap(), "2099-01-01T00:00:00Z");
    assert_eq!(v["label"].as_str().unwrap(), "a label");
    assert_eq!(v["created_at"].as_str().unwrap(), "2023-11-14T22:13:20Z");
}

#[test]
fn null_label_in_json() {
    let m = TimeLockedMessage::new_at("body", "pw", ts(1000), None, ts(500)).unwrap();
    let text = String::from_utf8(record_to_bytes(&m)).unwrap();
    let v: serde_json::Value = serde_json::from_str(&text).unwrap();
    assert!(v["label"].is_null());
}

#[test]
fn garbage_is_a_serialization_error() {
    assert!(matches!(
        record_from_bytes(b"not a record at all"),
        Err(TimeLockError::SerializationError)
    ));
    assert!(matches!(record_from_bytes(b""), Err(TimeLockError::SerializationError)));
}

#[test]
fn record_with_bad_timestamp_is_refused() {
    let m = TimeLockedMessage::new_at("body", "pw", ts(1000), None, ts(500)).unwrap();
    let text = String::from_utf8(record_to_bytes(&m)).unwrap();
    let broken = text.replace("1970-01-01T00:16:40Z", "not a date. here we go");
    assert!(record_from_bytes(broken.as_bytes()).is_err());
}

#[test]
fn scenario_store_load_open() {
    let unlock = ts_from_rfc3339("2099-01-01T00:00:00Z").unwrap();
    let m = TimeLockedMessage::new("hello world", "pw123", unlock, None).unwrap();
    let id = new_message_id();
    let stored = record_to_bytes(&m);
    let loaded = record_from_bytes(stored.as_slice()).unwrap();
    assert!(check_message_id(&id));
    assert_eq!(record_file_name(&id), format!("{}.json", id));
    let out = loaded.unlock_at("pw123", unlock.secs + 1).unwrap();
    assert_eq!(out, "hello world");
}

#[test]
fn scenario_wrong_password_on_loaded_envelope() {
    let unlock = ts_from_rfc3339("2099-01-01T00:00:00Z").unwrap();
    let m = TimeLockedMessage::new("hello world", "pw123", unlock, None).unwrap();
    let loaded = record_from_bytes(record_to_bytes(&m).as_slice()).unwrap();
    assert_eq!(loaded.unlock("wrong"), Err(TimeLockError::PasswordMismatch));
}

#[test]
fn scenario_flipped_ciphertext_byte_fails_authentication() {
    let m = TimeLockedMessage::new_at("hello world", "pw123", ts(1000), None, ts(500)).unwrap();
    let text = String::from_utf8(record_to_bytes(&m)).unwrap();
    // Flip one base64 character of the ciphertext, keeping the record
    // well-formed.
    let old_ct = &m.encrypted_content;
    let first = old_ct.chars().next().unwrap();
    let replacement = if first == 'A' { 'B' } else { 'A' };
    let mut new_ct: String = old_ct.clone();
    new_ct.replace_range(0..1, &replacement.to_string());
    let tampered = text.replace(old_ct.as_str(), new_ct.as_str());
    let loaded = record_from_bytes(tampered.as_bytes()).unwrap();
    // The password record is untouched, so the verifier still passes; the
    // tag check then fails.
    assert_eq!(
        loaded.unlock_at("pw123", 2000),
        Err(TimeLockError::AuthenticationFailed)
    );
}

#[test]
fn listing_skips_corrupt_records() {
    let m = TimeLockedMessage::new_at("kept", "pw", ts(1000), None, ts(500)).unwrap();
    let good = record_to_bytes(&m);
    let corrupt = b"{ not an envelope }".to_vec();
    let out = decode_records(vec![
        ("good-id".to_string(), good),
        ("bad-id".to_string(), corrupt),
    ]);
    assert_eq!(out.len(), 1);
    assert_eq!(out[0].0, "good-id");
    assert_eq!(out[0].1.unlock_at("pw", 2000).unwrap(), "kept");
}

#[test]
fn identifiers_are_fresh_and_valid() {
    let a = new_message_id();
    let b = new_message_id();
    assert_ne!(a, b);
    assert_eq!(a.len(), 36);
    assert!(check_message_id(&a));
    assert!(check_message_id(&b));
    let bytes = a.as_bytes();
    for i in [8, 13, 18, 23] {
        assert_eq!(bytes[i], b'-');
    }
    assert_eq!(bytes[14], b'4');
    assert!(matches!(bytes[19], b'8' | b'9' | b'a' | b'b'));
    for (i, c) in a.chars().enumerate() {
        if ![8, 13, 18, 23].contains(&i) {
            assert!(c.is_ascii_hexdigit() && !c.is_ascii_uppercase());
        }
    }
}

#[test]
fn identifier_validation_rejects_path_escapes() {
    assert!(!check_message_id(""));
    assert!(!check_message_id("../evil"));
    assert!(!check_message_id("a/b"));
    assert!(!check_message_id("a.b"));
    assert!(check_message_id("abc-DEF_123"));
    let long = "a".repeat(129);
    assert!(!check_message_id(&long));
}

#[test]
fn record_round_trip_with_far_future_unlock_date() {
    let m = TimeLockedMessage::new_at("x", "pw", ts(4070908800), None, ts(500)).unwrap();
    let back = record_from_bytes(record_to_bytes(&m).as_slice()).unwrap();
    assert_same(&m, &back);
    assert_eq!(back.unlock_at("pw", 4070908801).unwrap(), "x");
}

#[test]
fn rfc3339_round_trip() {
    let t = ts_from_rfc3339("2099-01-01T00:00:00Z").unwrap();
    assert_eq!(t.secs, 4070908800);
    assert_eq!(t.to_rfc3339(), "2099-01-01T00:00:00Z");
    assert!(ts_from_rfc3339("not a date").is_none());
    assert!(ts_from_rfc3339("1969-12-31T23:59:59Z").is_none());
}
