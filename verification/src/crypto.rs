use vstd::prelude::*;

use crate::timestamp::{ts_in_range, Timestamp, TS_MAX_SECS};
use crate::TimeLockError;
use argon2::password_hash::rand_core::RngCore;
use argon2::{PasswordHasher, PasswordVerifier};
use aes_gcm::aead::{Aead, KeyInit};
use base64::Engine;
use vstd::utf8::{decode_utf8, encode_scalar, encode_utf8, valid_utf8};

verus! {

broadcast use vstd::utf8::encode_utf8_valid_utf8, vstd::utf8::encode_utf8_decode_utf8;

/// Largest plaintext the AEAD accepts, in bytes.
pub const AEAD_MAX_PLAINTEXT: u64 = 0x10_0000_0000;

/// Largest password the key-derivation function accepts, in bytes.
pub const KDF_MAX_PASSWORD: u64 = 0xFFFF_FFFF;

/// The PHC password-hash record that Argon2id with its default parameters
/// produces for a password and a salt string; deterministic in both.
pub uninterp spec fn phc_hash(password: Seq<u8>, salt: Seq<char>) -> Seq<char>;

/// Whether a candidate PHC record parses and its digest matches the given
/// password; deterministic in record and password.
pub uninterp spec fn phc_verify(record: Seq<char>, password: Seq<u8>) -> bool;

/// The 32-byte key Argon2id derives from a password and the raw bytes of a
/// salt string; deterministic in both.
pub uninterp spec fn kdf_of(password: Seq<u8>, salt: Seq<char>) -> Seq<u8>;

/// The AES-256-GCM ciphertext-plus-tag of a plaintext under a key and nonce;
/// deterministic in all three.
pub uninterp spec fn aes_enc(key: Seq<u8>, nonce: Seq<u8>, plaintext: Seq<u8>) -> Seq<u8>;

/// What AES-256-GCM decryption yields for a key, nonce and candidate
/// ciphertext: the plaintext, or `None` where the tag does not verify.
pub uninterp spec fn aes_dec(key: Seq<u8>, nonce: Seq<u8>, ciphertext: Seq<u8>) -> Option<Seq<u8>>;

/// The standard base64 text of a byte sequence.
pub uninterp spec fn b64_of(bytes: Seq<u8>) -> Seq<char>;

/// What strict standard base64 decoding yields for a candidate text, or
/// `None` where the text is not canonical base64.
pub uninterp spec fn b64_dec(text: Seq<char>) -> Option<Seq<u8>>;

/// The characters the PHC salt-string grammar accepts.
pub open spec fn salt_char(c: char) -> bool {
    ('a' as u32 <= c as u32 && c as u32 <= 'z' as u32)
        || ('A' as u32 <= c as u32 && c as u32 <= 'Z' as u32)
        || ('0' as u32 <= c as u32 && c as u32 <= '9' as u32)
        || c == '/' || c == '+' || c == '.' || c == '-'
}

/// The characters of unpadded base64.
pub open spec fn b64_char(c: char) -> bool {
    ('a' as u32 <= c as u32 && c as u32 <= 'z' as u32)
        || ('A' as u32 <= c as u32 && c as u32 <= 'Z' as u32)
        || ('0' as u32 <= c as u32 && c as u32 <= '9' as u32)
        || c == '/' || c == '+'
}

/// The shape of a freshly generated salt string: 16 random bytes in
/// unpadded base64, which is 22 characters.
pub open spec fn generated_salt(s: Seq<char>) -> bool {
    s.len() == 22 && (forall|i: int| 0 <= i < s.len() ==> b64_char(#[trigger] s[i]))
}

/// The salt strings key derivation accepts: the PHC salt grammar, with at
/// least 8 raw bytes of salt text.
pub open spec fn kdf_salt_ok(s: Seq<char>) -> bool {
    8 <= s.len() <= 64 && (forall|i: int| 0 <= i < s.len() ==> salt_char(#[trigger] s[i]))
}

pub proof fn lemma_generated_salt_kdf_ok(s: Seq<char>)
    requires
        generated_salt(s),
    ensures
        kdf_salt_ok(s),
{
    assert forall|i: int| 0 <= i < s.len() implies salt_char(#[trigger] s[i]) by {
        assert(b64_char(s[i]));
    }
}

/// Relies on `password_hash::SaltString::generate`: 16 random bytes from the
/// operating system, rendered as 22 characters of unpadded base64.
#[verifier::external_body]
fn gen_salt_string() -> (r: String)
    ensures
        generated_salt(r@),
{
    argon2::password_hash::SaltString::generate(&mut argon2::password_hash::rand_core::OsRng)
        .to_string()
}

/// Relies on `rand_core::OsRng::fill_bytes`: 12 random bytes from the
/// operating system, about whose values nothing is promised.
#[verifier::external_body]
fn gen_nonce_bytes() -> (r: Vec<u8>)
    ensures
        r@.len() == 12,
{
    let mut b = [0u8; 12];
    argon2::password_hash::rand_core::OsRng.fill_bytes(&mut b);
    b.to_vec()
}

/// Relies on `argon2::Argon2::hash_password` (via `SaltString::from_b64`):
/// the PHC record it returns is a function of password and salt alone, and
/// hashing succeeds for every freshly generated salt.
#[verifier::external_body]
fn phc_hash_password(password: &[u8], salt: &str) -> (r: Option<String>)
    ensures
        r matches Some(h) ==> h@ == phc_hash(password@, salt@),
        generated_salt(salt@) && password@.len() <= KDF_MAX_PASSWORD ==> r is Some,
{
    let s = match argon2::password_hash::SaltString::from_b64(salt) {
        Ok(s) => s,
        Err(_) => return None,
    };
    match argon2::Argon2::default().hash_password(password, &s) {
        Ok(h) => Some(h.to_string()),
        Err(_) => None,
    }
}

/// Relies on `argon2::PasswordHash::new` and
/// `argon2::Argon2::verify_password`: the outcome is a function of record
/// and password alone, and a record that Argon2id hashing produced for this
/// password verifies against it.
#[verifier::external_body]
fn phc_verify_password(record: &str, password: &[u8]) -> (r: bool)
    ensures
        r == phc_verify(record@, password@),
        forall|s: Seq<char>|
            generated_salt(s) && record@ == phc_hash(password@, s) ==> r == true,
{
    match argon2::PasswordHash::new(record) {
        Ok(parsed) => argon2::Argon2::default().verify_password(password, &parsed).is_ok(),
        Err(_) => false,
    }
}

/// Relies on `argon2::Argon2::hash_password_into` (via
/// `SaltString::from_b64`): derivation succeeds exactly for salt strings in
/// the PHC salt grammar of at least 8 bytes, and the 32-byte key is a
/// function of password and salt text alone.
#[verifier::external_body]
fn argon2_derive_key(password: &[u8], salt: &str) -> (r: Option<Vec<u8>>)
    requires
        password@.len() <= KDF_MAX_PASSWORD,
    ensures
        r is Some <==> kdf_salt_ok(salt@),
        r matches Some(k) ==> k@ == kdf_of(password@, salt@) && k@.len() == 32,
{
    if argon2::password_hash::SaltString::from_b64(salt).is_err() {
        return None;
    }
    let mut key = [0u8; 32];
    match argon2::Argon2::default().hash_password_into(password, salt.as_bytes(), &mut key) {
        Ok(()) => Some(key.to_vec()),
        Err(_) => None,
    }
}

/// Relies on `aes_gcm::Aes256Gcm::encrypt`: the ciphertext-plus-tag is a
/// function of key, nonce and plaintext, is 16 bytes longer than the
/// plaintext, and encryption succeeds for every plaintext the cipher's
/// length bound admits.
#[verifier::external_body]
fn aes256gcm_encrypt(key: &[u8], nonce: &[u8], plaintext: &[u8]) -> (r: Option<Vec<u8>>)
    requires
        key@.len() == 32,
        nonce@.len() == 12,
    ensures
        r matches Some(ct) ==> ct@ == aes_enc(key@, nonce@, plaintext@) && ct@.len() == plaintext@.len() + 16,
        plaintext@.len() <= AEAD_MAX_PLAINTEXT ==> r is Some,
{
    let cipher = aes_gcm::Aes256Gcm::new(aes_gcm::Key::<aes_gcm::Aes256Gcm>::from_slice(key));
    cipher.encrypt(aes_gcm::Nonce::from_slice(nonce), plaintext).ok()
}

/// Relies on `aes_gcm::Aes256Gcm::decrypt`: the outcome is a function of
/// key, nonce and ciphertext, and decryption inverts encryption under the
/// same key and nonce.
#[verifier::external_body]
fn aes256gcm_decrypt(key: &[u8], nonce: &[u8], ciphertext: &[u8]) -> (r: Option<Vec<u8>>)
    requires
        key@.len() == 32,
        nonce@.len() == 12,
    ensures
        match r {
            Some(v) => aes_dec(key@, nonce@, ciphertext@) == Some(v@) && (forall|p: Seq<u8>|
                ciphertext@ == aes_enc(key@, nonce@, p) ==> v@ == p),
            None => aes_dec(key@, nonce@, ciphertext@) is None && (forall|p: Seq<u8>|
                p.len() <= AEAD_MAX_PLAINTEXT ==> ciphertext@ != aes_enc(key@, nonce@, p)),
        },
{
    let cipher = aes_gcm::Aes256Gcm::new(aes_gcm::Key::<aes_gcm::Aes256Gcm>::from_slice(key));
    cipher.decrypt(aes_gcm::Nonce::from_slice(nonce), ciphertext).ok()
}

/// Relies on `base64::engine::general_purpose::STANDARD.encode`: the text is
/// a function of the bytes alone.
#[verifier::external_body]
fn b64_encode(bytes: &[u8]) -> (r: String)
    ensures
        r@ == b64_of(bytes@),
{
    base64::engine::general_purpose::STANDARD.encode(bytes)
}

/// Relies on `base64::engine::general_purpose::STANDARD.decode`: the outcome
/// is a function of the text alone, and decoding inverts encoding (the
/// engine requires canonical padding and rejects stray trailing bits).
#[verifier::external_body]
fn b64_decode(text: &str) -> (r: Option<Vec<u8>>)
    ensures
        match r {
            Some(v) => b64_dec(text@) == Some(v@) && (forall|b: Seq<u8>|
                text@ == b64_of(b) ==> v@ == b),
            None => b64_dec(text@) is None && (forall|b: Seq<u8>| text@ != b64_of(b)),
        },
{
    base64::engine::general_purpose::STANDARD.decode(text).ok()
}

/// Relies on `String::from_utf8`: succeeds exactly on valid UTF-8 and
/// returns the decoded text.
#[verifier::external_body]
pub fn string_from_utf8(bytes: Vec<u8>) -> (r: Option<String>)
    ensures
        match r {
            Some(s) => valid_utf8(bytes@) && s@ == decode_utf8(bytes@),
            None => !valid_utf8(bytes@),
        },
{
    String::from_utf8(bytes).ok()
}

/// A UTF-8 encoding never takes more than four bytes per character.
pub proof fn lemma_encode_utf8_len(s: Seq<char>)
    ensures
        encode_utf8(s).len() <= 4 * s.len(),
    decreases s.len(),
{
    if s.len() > 0 {
        lemma_encode_utf8_len(s.drop_first());
        assert(encode_scalar(s[0] as u32).len() <= 4);
    }
}

/// The persisted unit: an encrypted, time-gated message together with the
/// material needed to open it again.
#[derive(Clone)]
pub struct TimeLockedMessage {
    /// Base64 of the AEAD ciphertext-plus-tag.
    pub encrypted_content: String,
    /// Base64 of the 12 random nonce bytes.
    pub nonce: String,
    /// The PHC salt string used both for the password record and for key
    /// derivation.
    pub salt: String,
    /// Self-contained PHC password-hash record.
    pub password_hash: String,
    /// The instant before which the message must not open.
    pub unlock_date: Timestamp,
    /// Optional free-text annotation; not secret.
    pub label: Option<String>,
    /// Creation instant, informational only.
    pub created_at: Timestamp,
}

impl TimeLockedMessage {
    /// Both instants of the envelope are representable.
    pub open spec fn wf(&self) -> bool {
        ts_in_range(self.unlock_date.secs) && ts_in_range(self.created_at.secs)
    }
}

/// The envelope fields that `new` produced for this password and content:
/// a fresh well-shaped salt, the password's hash record under that salt,
/// and the content encrypted under the derived key and some 12-byte nonce.
pub open spec fn created_matches(m: TimeLockedMessage, password: Seq<u8>, content: Seq<char>) -> bool {
    &&& generated_salt(m.salt@)
    &&& m.password_hash@ == phc_hash(password, m.salt@)
    &&& encode_utf8(content).len() <= AEAD_MAX_PLAINTEXT
    &&& exists|nb: Seq<u8>|
        nb.len() == 12 && m.nonce@ == #[trigger] b64_of(nb) && m.encrypted_content@ == b64_of(
            aes_enc(kdf_of(password, m.salt@), nb, encode_utf8(content)),
        ) && aes_enc(kdf_of(password, m.salt@), nb, encode_utf8(content)).len() == encode_utf8(
            content,
        ).len() + 16
}

/// What opening yields once the password check has succeeded and the
/// unlock instant has been reached: decode, derive, decrypt and re-read
/// the text, with the error kind of the first step that fails.
pub open spec fn decrypt_spec(m: TimeLockedMessage, password: Seq<u8>) -> Result<
    Seq<char>,
    TimeLockError,
> {
    if !kdf_salt_ok(m.salt@) {
        Err(TimeLockError::KeyDerivationError)
    } else {
        match b64_dec(m.encrypted_content@) {
            None => Err(TimeLockError::SerializationError),
            Some(ct) => match b64_dec(m.nonce@) {
                None => Err(TimeLockError::SerializationError),
                Some(nb) => if nb.len() != 12 {
                    Err(TimeLockError::SerializationError)
                } else {
                    match aes_dec(kdf_of(password, m.salt@), nb, ct) {
                        None => Err(TimeLockError::AuthenticationFailed),
                        Some(pt) => if valid_utf8(pt) {
                            Ok(decode_utf8(pt))
                        } else {
                            Err(TimeLockError::InvalidContent)
                        },
                    }
                },
            },
        }
    }
}

/// Exactly what `unlock_at` returns: the password check first, then the
/// time gate, then decryption.
pub open spec fn open_result_spec(m: TimeLockedMessage, password: Seq<u8>, now: i64) -> Result<
    Seq<char>,
    TimeLockError,
> {
    if !phc_verify(m.password_hash@, password) {
        Err(TimeLockError::PasswordMismatch)
    } else if now < m.unlock_date.secs {
        Err(TimeLockError::StillLocked { remaining_secs: (m.unlock_date.secs - now) as i64 })
    } else {
        decrypt_spec(m, password)
    }
}

/// The executable outcome agrees with the specified one, up to the view of
/// the recovered text.
pub open spec fn matches_open(r: Result<String, TimeLockError>, s: Result<Seq<char>, TimeLockError>) -> bool {
    match (r, s) {
        (Ok(a), Ok(b)) => a@ == b,
        (Err(x), Err(y)) => x == y,
        _ => false,
    }
}

/// A failed password check is reported as `PasswordMismatch` before anything
/// else is looked at: the time gate is not consulted and no plaintext is
/// returned, whatever the rest of the envelope holds.
pub proof fn lemma_password_check_precedes_time_gate(
    m: TimeLockedMessage,
    password: Seq<u8>,
    now: i64,
)
    ensures
        !phc_verify(m.password_hash@, password) ==> open_result_spec(m, password, now) == Err::<
            Seq<char>,
            TimeLockError,
        >(TimeLockError::PasswordMismatch),
{
}

/// With a verified password but before the unlock instant, opening reports
/// `StillLocked` carrying the remaining seconds, and never plaintext.
pub proof fn lemma_time_gate(m: TimeLockedMessage, password: Seq<u8>, now: i64)
    requires
        0 <= now < TS_MAX_SECS,
        ts_in_range(m.unlock_date.secs),
    ensures
        phc_verify(m.password_hash@, password) && now < m.unlock_date.secs
            ==> open_result_spec(m, password, now) == Err::<Seq<char>, TimeLockError>(
            TimeLockError::StillLocked { remaining_secs: (m.unlock_date.secs - now) as i64 },
        ),
{
}

impl TimeLockedMessage {
    /// Build a new envelope at an explicit creation instant: generate a
    /// fresh salt and nonce, hash the password, derive the key and encrypt
    /// the content.
    pub fn new_at(
        content: &str,
        password: &str,
        unlock_date: Timestamp,
        label: Option<String>,
        created_at: Timestamp,
    ) -> (r: Result<TimeLockedMessage, TimeLockError>)
        requires
            ts_in_range(unlock_date.secs),
            ts_in_range(created_at.secs),
            content@.len() <= 0x4000_0000,
            password@.len() <= 0x3FFF_FFFF,
        ensures
            r matches Ok(m) ==> {
                &&& created_matches(m, encode_utf8(password@), content@)
                &&& m.wf()
                &&& m.unlock_date == unlock_date
                &&& m.created_at == created_at
                &&& m.label.deep_view() == label.deep_view()
            },
            r is Ok,
    {
        proof {
            lemma_encode_utf8_len(password@);
            lemma_encode_utf8_len(content@);
        }
        let salt = gen_salt_string();
        let password_hash = match phc_hash_password(password.as_bytes(), salt.as_str()) {
            Some(h) => h,
            None => {
                return Err(TimeLockError::EncryptionError);
            },
        };
        proof {
            lemma_generated_salt_kdf_ok(salt@);
        }
        let key = match argon2_derive_key(password.as_bytes(), salt.as_str()) {
            Some(k) => k,
            None => {
                return Err(TimeLockError::KeyDerivationError);
            },
        };
        let nonce = gen_nonce_bytes();
        let ct = match aes256gcm_encrypt(key.as_slice(), nonce.as_slice(), content.as_bytes()) {
            Some(c) => c,
            None => {
                return Err(TimeLockError::EncryptionError);
            },
        };
        let encrypted_content = b64_encode(ct.as_slice());
        let nonce_text = b64_encode(nonce.as_slice());
        Ok(TimeLockedMessage {
            encrypted_content,
            nonce: nonce_text,
            salt,
            password_hash,
            unlock_date,
            label,
            created_at,
        })
    }

    /// Build a new envelope, created now.
    pub fn new(
        content: &str,
        password: &str,
        unlock_date: Timestamp,
        label: Option<String>,
    ) -> (r: Result<TimeLockedMessage, TimeLockError>)
        requires
            ts_in_range(unlock_date.secs),
            content@.len() <= 0x4000_0000,
            password@.len() <= 0x3FFF_FFFF,
        ensures
            r matches Ok(m) ==> {
                &&& created_matches(m, encode_utf8(password@), content@)
                &&& m.wf()
                &&& m.unlock_date == unlock_date
                &&& m.label.deep_view() == label.deep_view()
            },
            r is Ok,
    {
        let now = Timestamp::now();
        Self::new_at(content, password, unlock_date, label, now)
    }

    /// Open the envelope at an explicit instant `now`: check the password,
    /// then the time gate, then decrypt.
    ///
    /// The second `ensures` clause is the round trip: an envelope that
    /// `new` built for this password and some content, opened at or after
    /// its unlock instant, returns exactly that content.
    pub fn unlock_at(&self, password: &str, now: i64) -> (r: Result<String, TimeLockError>)
        requires
            0 <= now < TS_MAX_SECS,
            ts_in_range(self.unlock_date.secs),
            password@.len() <= 0x3FFF_FFFF,
        ensures
            matches_open(r, open_result_spec(*self, encode_utf8(password@), now)),
            forall|c: Seq<char>|
                #[trigger] created_matches(*self, encode_utf8(password@), c)
                    && now >= self.unlock_date.secs ==> (r matches Ok(out) && out@ == c),
    {
        proof {
            lemma_encode_utf8_len(password@);
        }
        let verified = phc_verify_password(self.password_hash.as_str(), password.as_bytes());
        if !verified {
            return Err(TimeLockError::PasswordMismatch);
        }
        if now < self.unlock_date.secs {
            return Err(TimeLockError::StillLocked {
                remaining_secs: self.unlock_date.secs - now,
            });
        }
        let key = match argon2_derive_key(password.as_bytes(), self.salt.as_str()) {
            Some(k) => k,
            None => {
                proof {
                    assert forall|c: Seq<char>|
                        created_matches(*self, encode_utf8(password@), c) implies false by {
                        lemma_generated_salt_kdf_ok(self.salt@);
                    }
                }
                return Err(TimeLockError::KeyDerivationError);
            },
        };
        let ct = match b64_decode(self.encrypted_content.as_str()) {
            Some(v) => v,
            None => {
                return Err(TimeLockError::SerializationError);
            },
        };
        let nb = match b64_decode(self.nonce.as_str()) {
            Some(v) => v,
            None => {
                return Err(TimeLockError::SerializationError);
            },
        };
        if nb.len() != 12 {
            return Err(TimeLockError::SerializationError);
        }
        let pt = match aes256gcm_decrypt(key.as_slice(), nb.as_slice(), ct.as_slice()) {
            Some(v) => v,
            None => {
                return Err(TimeLockError::AuthenticationFailed);
            },
        };
        match string_from_utf8(pt) {
            Some(s) => Ok(s),
            None => Err(TimeLockError::InvalidContent),
        }
    }

    /// Open the envelope against the machine's wall clock.
    pub fn unlock(&self, password: &str) -> (r: Result<String, TimeLockError>)
        requires
            ts_in_range(self.unlock_date.secs),
            password@.len() <= 0x3FFF_FFFF,
        ensures
            exists|now: i64|
                ts_in_range(now) && matches_open(
                    r,
                    #[trigger] open_result_spec(*self, encode_utf8(password@), now),
                ),
    {
        let now = Timestamp::now();
        let r = self.unlock_at(password, now.secs);
        proof {
            assert(matches_open(r, open_result_spec(*self, encode_utf8(password@), now.secs)));
        }
        r
    }
}

} // verus!
