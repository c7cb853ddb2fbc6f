//! The error taxonomy of the store.

use vstd::prelude::*;

verus! {

/// Every failure the library surfaces. Absence of a record is reported
/// through `Option`, not through this type, so that callers can tell
/// "not found" from a real error.
#[derive(Clone, Copy, Debug, PartialEq, Eq, Structural)]
pub enum SnipError {
    /// The key-derivation step itself failed (environment-level only).
    KeyDerivationFailure,
    /// The AEAD cipher refused to seal the payload.
    EncryptionFailed,
    /// The authentication tag did not verify: wrong key, corruption,
    /// or tampering.
    AuthenticationFailed,
    /// The envelope is not valid base64, or is shorter than a nonce.
    MalformedCiphertext,
    /// The sealed payload decrypted to bytes that are not UTF-8 text.
    InvalidEncoding,
    /// The persistent store cannot be opened, read, or written.
    StorageUnavailable,
    /// The user aborted the interactive selection.
    SelectionCancelled,
    /// Selection was requested over an empty candidate set.
    NoCandidates,
}

impl SnipError {
    /// A short human-readable name for the failure, for the layer that
    /// presents errors.
    pub fn describe(&self) -> (r: &'static str)
        ensures
            r@.len() > 0,
    {
        let s = match self {
            SnipError::KeyDerivationFailure => "key derivation failed",
            SnipError::EncryptionFailed => "encryption failed",
            SnipError::AuthenticationFailed => "authentication failed: wrong key or tampered data",
            SnipError::MalformedCiphertext => "malformed ciphertext envelope",
            SnipError::InvalidEncoding => "decrypted data is not valid UTF-8",
            SnipError::StorageUnavailable => "storage unavailable",
            SnipError::SelectionCancelled => "selection cancelled",
            SnipError::NoCandidates => "no snippets available",
        };
        proof {
            reveal_strlit("key derivation failed");
            reveal_strlit("encryption failed");
            reveal_strlit("authentication failed: wrong key or tampered data");
            reveal_strlit("malformed ciphertext envelope");
            reveal_strlit("decrypted data is not valid UTF-8");
            reveal_strlit("storage unavailable");
            reveal_strlit("selection cancelled");
            reveal_strlit("no snippets available");
        }
        s
    }
}

} // verus!
