use timecapsule::crypto::TimeLockedMessage;
use timecapsule::timestamp::Timestamp;
use timecapsule::TimeLockError;

fn ts(secs: i64) -> Timestamp {
    Timestamp { secs }
}

#[test]
fn round_trip_after_unlock_date() {
    let m = TimeLockedMessage::new_at("hello world", "pw123", ts(1000), None, ts(500)).unwrap();
    let out = m.unlock_at("pw123", 2000).unwrap();
    assert_eq!(out, "hello world");
}

#[test]
fn round_trip_exactly_at_unlock_date() {
    let m = TimeLockedMessage::new_at("x", "pw", ts(1000), None, ts(500)).unwrap();
    assert_eq!(m.unlock_at("pw", 1000).unwrap(), "x");
}

#[test]
fn round_trip_empty_content() {
    let m = TimeLockedMessage::new_at("", "pw", ts(1000), None, ts(500)).unwrap();
    assert_eq!(m.unlock_at("pw", 2000).unwrap(), "");
}

#[test]
fn round_trip_unicode_content() {
    let content = "h\u{e9}llo \u{2603} \u{1f512}";
    let m = TimeLockedMessage::new_at(content, "p\u{e4}ss", ts(1000), None, ts(500)).unwrap();
    assert_eq!(m.unlock_at("p\u{e4}ss", 2000).unwrap(), content);
}

#[test]
fn wrong_password_rejected() {
    let m = TimeLockedMessage::new_at("secret", "right", ts(1000), None, ts(500)).unwrap();
    assert_eq!(m.unlock_at("wrong", 2000), Err(TimeLockError::PasswordMismatch));
}

#[test]
fn wrong_password_rejected_before_unlock_date() {
    // The password check precedes the time gate: a wrong password is
    // reported as a mismatch, not as a locked message.
    let m = TimeLockedMessage::new_at("secret", "right", ts(1000), None, ts(500)).unwrap();
    assert_eq!(m.unlock_at("wrong", 600), Err(TimeLockError::PasswordMismatch));
}

#[test]
fn still_locked_before_unlock_date() {
    let m = TimeLockedMessage::new_at("secret", "pw", ts(1000), None, ts(500)).unwrap();
    assert_eq!(
        m.unlock_at("pw", 600),
        Err(TimeLockError::StillLocked { remaining_secs: 400 })
    );
}

#[test]
fn freshness_of_salt_nonce_and_ciphertext() {
    let a = TimeLockedMessage::new_at("same", "pw", ts(1000), None, ts(500)).unwrap();
    let b = TimeLockedMessage::new_at("same", "pw", ts(1000), None, ts(500)).unwrap();
    assert_ne!(a.nonce, b.nonce);
    assert_ne!(a.salt, b.salt);
    assert_ne!(a.encrypted_content, b.encrypted_content);
}

#[test]
fn envelope_fields_are_populated() {
    let m = TimeLockedMessage::new_at(
        "msg",
        "pw",
        ts(4070908800),
        Some("a label".to_string()),
        ts(1500000000),
    )
    .unwrap();
    assert_eq!(m.unlock_date.secs, 4070908800);
    assert_eq!(m.created_at.secs, 1500000000);
    assert_eq!(m.label.as_deref(), Some("a label"));
    assert_eq!(m.salt.len(), 22);
    assert!(m.password_hash.starts_with("$argon2"));
}

#[test]
fn corrupted_salt_gives_key_derivation_error() {
    let mut m = TimeLockedMessage::new_at("msg", "pw", ts(1000), None, ts(500)).unwrap();
    m.salt = "x".to_string();
    assert_eq!(m.unlock_at("pw", 2000), Err(TimeLockError::KeyDerivationError));
}

#[test]
fn corrupted_base64_gives_serialization_error() {
    let mut m = TimeLockedMessage::new_at("msg", "pw", ts(1000), None, ts(500)).unwrap();
    m.encrypted_content = "not base64 !!!".to_string();
    assert_eq!(m.unlock_at("pw", 2000), Err(TimeLockError::SerializationError));
}

#[test]
fn scenario_immediate_open_is_still_locked() {
    let now = Timestamp::now();
    let unlock = Timestamp { secs: now.secs + 60 };
    let m = TimeLockedMessage::new("wait for it", "pw123", unlock, None).unwrap();
    match m.unlock("pw123") {
        Err(TimeLockError::StillLocked { remaining_secs }) => {
            assert!(remaining_secs >= 50 && remaining_secs <= 60);
        }
        other => panic!("expected StillLocked, got {:?}", other),
    }
}
