pub mod codec;
pub mod crypto;
pub mod storage;
pub mod timestamp;

use vstd::prelude::*;

verus! {

/// Failure kinds of the time-capsule core, one variant per failure class.
#[derive(Clone, Copy, Debug, PartialEq, Eq, Structural)]
pub enum TimeLockError {
    /// The salt was malformed or key derivation could not run.
    KeyDerivationError,
    /// The cipher could not encrypt the payload.
    EncryptionError,
    /// The candidate password does not match the stored password record.
    PasswordMismatch,
    /// The ciphertext failed tag verification: corrupted or tampered record.
    AuthenticationFailed,
    /// The unlock instant has not been reached; carries the remaining seconds.
    StillLocked { remaining_secs: i64 },
    /// The decrypted bytes are not valid text.
    InvalidContent,
    /// No record exists for the requested identifier.
    NotFound,
    /// The record text is not a well-formed envelope record.
    SerializationError,
    /// The storage medium failed to read or write.
    IOError,
}

} // verus!
