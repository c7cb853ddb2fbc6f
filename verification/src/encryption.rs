//! The cipher: a key derived from the master secret by a slow KDF, and
//! authenticated encryption of snippet text into a base64 envelope of
//! `nonce || ciphertext || tag`.

use vstd::prelude::*;
use vstd::utf8::{decode_utf8, encode_utf8, valid_utf8};
use vstd::utf8::{decode_utf8_encode_utf8, encode_utf8_decode_utf8, encode_utf8_valid_utf8};
use base64::Engine;
use aes_gcm::KeyInit;
use aes_gcm::aead::{Aead, Generate};
use crate::errors::SnipError;

verus! {

/// The largest payload AES-GCM seals or opens: 2^36 - 32 bytes, the
/// standardized cap the cipher enforces on both directions.
pub const AES_GCM_P_MAX: u64 = 68719476704;

/// The key PBKDF2-HMAC-SHA-256 derives from a password, a salt, an
/// iteration count, and a requested output length. Deterministic, so
/// the result bears a name; it is never spelled out here.
pub uninterp spec fn kdf_of(password: Seq<u8>, salt: Seq<u8>, iterations: u32, out_len: nat) -> Seq<u8>;

/// The bytes AES-256-GCM produces when it seals `plaintext` under
/// `key` and `nonce`: the ciphertext with the 16-byte tag appended.
/// Deterministic in its three arguments.
pub uninterp spec fn aes_gcm_seal(key: Seq<u8>, nonce: Seq<u8>, plaintext: Seq<u8>) -> Seq<u8>;

/// The standard base64 (with padding) encoding of a byte sequence.
pub uninterp spec fn b64_of(bytes: Seq<u8>) -> Seq<char>;

/// What strict standard base64 decoding returns: the decoded bytes,
/// or nothing when the text is not acceptable base64.
pub uninterp spec fn b64_decode_of(text: Seq<char>) -> Option<Seq<u8>>;

/// Relies on `pbkdf2::pbkdf2_hmac` with `sha2::Sha256`: fills a buffer
/// of the requested length with the PBKDF2-HMAC-SHA-256 derivation, a
/// deterministic function of password, salt and iteration count.
#[verifier::external_body]
fn pbkdf2_sha256(password: &[u8], salt: &[u8], iterations: u32, out_len: usize) -> (r: Vec<u8>)
    ensures
        r@.len() == out_len,
        r@ == kdf_of(password@, salt@, iterations, out_len as nat),
{
    let mut buf = vec![0u8; out_len];
    pbkdf2::pbkdf2_hmac::<sha2::Sha256>(password, salt, iterations, &mut buf);
    buf
}

/// Relies on `crypto_common::Generate` for the 96-bit AES-GCM nonce
/// type, drawing from the system's secure randomness. Nothing is
/// promised of the value beyond its length.
#[verifier::external_body]
fn random_nonce() -> (r: Result<Vec<u8>, ()>)
    ensures
        r matches Ok(n) ==> n@.len() == 12,
{
    let drawn: Result<aes_gcm::Nonce<<aes_gcm::Aes256Gcm as aes_gcm::AeadCore>::NonceSize>, _> =
        Generate::try_generate();
    match drawn {
        Ok(n) => Ok(n.to_vec()),
        Err(_) => Err(()),
    }
}

/// Relies on `aes_gcm::aead::Aead::encrypt` for `Aes256Gcm`: returns
/// ciphertext plus appended 16-byte tag, a deterministic function of
/// key, nonce and plaintext; it fails exactly on payloads over the
/// standardized cap.
#[verifier::external_body]
fn aes_seal(key: &[u8], nonce: &[u8], plaintext: &[u8]) -> (r: Result<Vec<u8>, ()>)
    requires
        key@.len() == 32,
        nonce@.len() == 12,
    ensures
        r is Ok <==> plaintext@.len() <= AES_GCM_P_MAX,
        r matches Ok(c) ==> c@ == aes_gcm_seal(key@, nonce@, plaintext@)
            && c@.len() == plaintext@.len() + 16,
{
    let cipher = match aes_gcm::Aes256Gcm::new_from_slice(key) {
        Ok(c) => c,
        Err(_) => return Err(()),
    };
    let nonce_arr =
        match <&aes_gcm::Nonce<<aes_gcm::Aes256Gcm as aes_gcm::AeadCore>::NonceSize>>::try_from(nonce) {
            Ok(n) => n,
            Err(_) => return Err(()),
        };
    match cipher.encrypt(nonce_arr, plaintext) {
        Ok(v) => Ok(v),
        Err(_) => Err(()),
    }
}

/// Relies on `aes_gcm::aead::Aead::decrypt` for `Aes256Gcm`: AES-GCM
/// decryption inverts sealing under the same key and nonce, and it
/// accepts a ciphertext only when the tag verifies, which for GCM
/// holds exactly of the outputs of sealing under that key and nonce.
/// The cipher seals and opens payloads up to the standardized cap
/// only, so the clauses speak of plaintexts within it: a sealing of
/// such a plaintext is never over-length and is always accepted.
#[verifier::external_body]
fn aes_open(key: &[u8], nonce: &[u8], ciphertext: &[u8]) -> (r: Result<Vec<u8>, ()>)
    requires
        key@.len() == 32,
        nonce@.len() == 12,
    ensures
        r is Err ==> !(exists|p: Seq<u8>|
            p.len() <= AES_GCM_P_MAX && ciphertext@ == #[trigger] aes_gcm_seal(key@, nonce@, p)),
        r matches Ok(q) ==> q@.len() <= AES_GCM_P_MAX
            && ciphertext@ == aes_gcm_seal(key@, nonce@, q@),
        r matches Ok(q) ==> forall|p: Seq<u8>|
            p.len() <= AES_GCM_P_MAX && ciphertext@ == #[trigger] aes_gcm_seal(key@, nonce@, p)
                ==> p == q@,
{
    let cipher = match aes_gcm::Aes256Gcm::new_from_slice(key) {
        Ok(c) => c,
        Err(_) => return Err(()),
    };
    let nonce_arr =
        match <&aes_gcm::Nonce<<aes_gcm::Aes256Gcm as aes_gcm::AeadCore>::NonceSize>>::try_from(nonce) {
            Ok(n) => n,
            Err(_) => return Err(()),
        };
    match cipher.decrypt(nonce_arr, ciphertext) {
        Ok(v) => Ok(v),
        Err(_) => Err(()),
    }
}

/// Relies on `base64::engine::general_purpose::STANDARD.encode`:
/// deterministic, and injective (decoding inverts it), so no other
/// byte sequence encodes to the same text.
#[verifier::external_body]
fn b64_encode(bytes: &[u8]) -> (r: String)
    ensures
        r@ == b64_of(bytes@),
        r@ == b64_of(bytes@) ==> forall|b: Seq<u8>| r@ == #[trigger] b64_of(b) ==> b == bytes@,
{
    base64::engine::general_purpose::STANDARD.encode(bytes)
}

/// Relies on `base64::engine::general_purpose::STANDARD.decode`: the
/// strict decoder accepts a text exactly when it decodes, and decoding
/// inverts encoding.
#[verifier::external_body]
fn b64_decode(text: &str) -> (r: Result<Vec<u8>, ()>)
    ensures
        r is Ok <==> b64_decode_of(text@) is Some,
        r matches Ok(b) ==> b64_decode_of(text@) == Some(b@),
        r is Err ==> !(exists|b: Seq<u8>| text@ == #[trigger] b64_of(b)),
        r matches Ok(v) ==> forall|b: Seq<u8>| text@ == #[trigger] b64_of(b) ==> v@ == b,
{
    match base64::engine::general_purpose::STANDARD.decode(text) {
        Ok(v) => Ok(v),
        Err(_) => Err(()),
    }
}

/// Relies on `String::from_utf8`: succeeds exactly on valid UTF-8 and
/// returns the decoded text.
#[verifier::external_body]
fn utf8_to_string(bytes: Vec<u8>) -> (r: Result<String, ()>)
    ensures
        r is Ok <==> valid_utf8(bytes@),
        r matches Ok(s) ==> s@ == decode_utf8(bytes@),
{
    match String::from_utf8(bytes) {
        Ok(s) => Ok(s),
        Err(_) => Err(()),
    }
}

/// The cipher with its derived 256-bit key. The key lives in memory
/// only and is rebuilt from the master secret per instance.
pub struct Encryption {
    key: Vec<u8>,
}

impl Encryption {
    /// The derived key bytes.
    pub closed spec fn key_bytes(self) -> Seq<u8> {
        self.key@
    }

    /// A cipher is well formed when it holds a 256-bit key.
    pub open spec fn wf(self) -> bool {
        self.key_bytes().len() == 32
    }

    /// The fixed application salt of the key derivation.
    pub open spec fn kdf_salt() -> Seq<u8> {
        seq![
            0x6du8, 0x61, 0x63, 0x6f, 0x6c, 0x69, 0x6e, 0x74,
            0x2d, 0x73, 0x61, 0x6c, 0x74, 0x2d, 0x76, 0x31,
        ]
    }

    /// The key this cipher derives from a master secret: PBKDF2 over
    /// the secret's UTF-8 bytes, with the application salt and 100000
    /// iterations, producing 32 bytes.
    pub open spec fn derived_key_of(secret: Seq<char>) -> Seq<u8> {
        kdf_of(encode_utf8(secret), Self::kdf_salt(), 100000, 32)
    }

    /// The envelope text that sealing `plaintext` under `key` with a
    /// given nonce produces: base64 of `nonce || ciphertext || tag`.
    pub open spec fn envelope_of(key: Seq<u8>, nonce: Seq<u8>, plaintext: Seq<char>) -> Seq<char> {
        b64_of(nonce + aes_gcm_seal(key, nonce, encode_utf8(plaintext)))
    }

    /// Derive a cipher from the master secret. Deterministic: the same
    /// secret always yields the same key.
    pub fn new(master_key: &str) -> (r: Result<Encryption, SnipError>)
        ensures
            r matches Ok(e) && e.wf() && e.key_bytes() == Self::derived_key_of(master_key@),
    {
        let salt = Self::salt_bytes();
        let key = pbkdf2_sha256(master_key.as_bytes(), salt.as_slice(), 100000, 32);
        Ok(Encryption { key })
    }

    /// The exec value of the application salt.
    fn salt_bytes() -> (r: Vec<u8>)
        ensures
            r@ == Self::kdf_salt(),
    {
        let r: Vec<u8> = vec![
            0x6d, 0x61, 0x63, 0x6f, 0x6c, 0x69, 0x6e, 0x74,
            0x2d, 0x73, 0x61, 0x6c, 0x74, 0x2d, 0x76, 0x31,
        ];
        proof {
            assert(r@ =~= Self::kdf_salt());
        }
        r
    }

    /// Encrypt snippet text: a fresh random 96-bit nonce, AES-256-GCM,
    /// and the base64 envelope `nonce || ciphertext || tag`. On
    /// success the result is a well-formed envelope of the plaintext
    /// under this key.
    pub fn encrypt(&self, plaintext: &str) -> (r: Result<String, SnipError>)
        requires
            self.wf(),
        ensures
            r matches Ok(blob) ==> exists|nonce: Seq<u8>|
                nonce.len() == 12
                && blob@ == #[trigger] Self::envelope_of(self.key_bytes(), nonce, plaintext@),
            r is Ok ==> encode_utf8(plaintext@).len() <= AES_GCM_P_MAX,
            r matches Ok(blob) ==> forall|b: Seq<u8>| blob@ == #[trigger] b64_of(b)
                ==> b.len() == 12 + encode_utf8(plaintext@).len() + 16,
            r matches Err(e) ==> e == SnipError::EncryptionFailed,
    {
        let mut nonce = match random_nonce() {
            Ok(n) => n,
            Err(_) => return Err(SnipError::EncryptionFailed),
        };
        let ghost nonce_seq = nonce@;
        let mut sealed = match aes_seal(self.key.as_slice(), nonce.as_slice(), plaintext.as_bytes()) {
            Ok(c) => c,
            Err(_) => return Err(SnipError::EncryptionFailed),
        };
        nonce.append(&mut sealed);
        let blob = b64_encode(nonce.as_slice());
        proof {
            assert(nonce_seq.len() == 12
                && blob@ == Self::envelope_of(self.key_bytes(), nonce_seq, plaintext@));
            assert forall|b: Seq<u8>| blob@ == #[trigger] b64_of(b)
                implies b.len() == 12 + encode_utf8(plaintext@).len() + 16 by {
                assert(b == nonce@);
            }
        }
        Ok(blob)
    }

    /// Whether the decoded envelope body (after the 12-byte nonce)
    /// is something sealing under `key` can produce with that nonce.
    /// Sealing takes payloads up to the cipher's cap only.
    pub open spec fn is_sealed_under(key: Seq<u8>, env: Seq<u8>) -> bool {
        exists|p: Seq<u8>|
            p.len() <= AES_GCM_P_MAX && env.skip(12) == #[trigger] aes_gcm_seal(key, env.take(12), p)
    }

    /// The payload bytes a sealed envelope carries.
    pub open spec fn unsealed_payload(key: Seq<u8>, env: Seq<u8>) -> Seq<u8> {
        choose|p: Seq<u8>|
            p.len() <= AES_GCM_P_MAX && env.skip(12) == #[trigger] aes_gcm_seal(key, env.take(12), p)
    }

    /// What decrypting an envelope text under `key` yields: the
    /// plaintext of a well-formed authentic envelope, or the one error
    /// its defect calls for.
    pub open spec fn decrypt_of(key: Seq<u8>, blob: Seq<char>) -> Result<Seq<char>, SnipError> {
        match b64_decode_of(blob) {
            Option::None => Result::Err(SnipError::MalformedCiphertext),
            Option::Some(env) => if env.len() < 12 {
                Result::Err(SnipError::MalformedCiphertext)
            } else if !Self::is_sealed_under(key, env) {
                Result::Err(SnipError::AuthenticationFailed)
            } else if !valid_utf8(Self::unsealed_payload(key, env)) {
                Result::Err(SnipError::InvalidEncoding)
            } else {
                Result::Ok(decode_utf8(Self::unsealed_payload(key, env)))
            },
        }
    }

    /// Decrypt an envelope. The result is exactly `decrypt_of`, and —
    /// the round trip — an envelope produced by sealing any plaintext
    /// under this key with any 12-byte nonce decrypts to that
    /// plaintext.
    pub fn decrypt(&self, blob: &str) -> (r: Result<String, SnipError>)
        requires
            self.wf(),
        ensures
            r is Ok <==> Self::decrypt_of(self.key_bytes(), blob@) is Ok,
            r matches Ok(s) ==> Self::decrypt_of(self.key_bytes(), blob@) == Result::<Seq<char>, SnipError>::Ok(s@),
            r matches Err(e) ==> Self::decrypt_of(self.key_bytes(), blob@) == Result::<Seq<char>, SnipError>::Err(e),
            forall|nonce: Seq<u8>, p: Seq<char>|
                nonce.len() == 12
                && encode_utf8(p).len() <= AES_GCM_P_MAX
                && blob@ == #[trigger] Self::envelope_of(self.key_bytes(), nonce, p)
                ==> (r matches Ok(s) && s@ == p),
    {
        proof {
            broadcast use encode_utf8_valid_utf8;
            broadcast use encode_utf8_decode_utf8;
            broadcast use decode_utf8_encode_utf8;
        }
        let env = match b64_decode(blob) {
            Ok(v) => v,
            Err(_) => {
                return Err(SnipError::MalformedCiphertext);
            },
        };
        if env.len() < 12 {
            proof {
                lemma_envelope_parts(self.key_bytes(), env@);
            }
            return Err(SnipError::MalformedCiphertext);
        }
        let nonce = vstd::slice::slice_subrange(env.as_slice(), 0, 12);
        let ct = vstd::slice::slice_subrange(env.as_slice(), 12, env.len());
        proof {
            assert(nonce@ == env@.take(12));
            assert(ct@ == env@.skip(12));
        }
        let payload = match aes_open(self.key.as_slice(), nonce, ct) {
            Ok(p) => p,
            Err(_) => {
                proof {
                    lemma_envelope_parts(self.key_bytes(), env@);
                }
                return Err(SnipError::AuthenticationFailed);
            },
        };
        proof {
            assert(Self::is_sealed_under(self.key_bytes(), env@));
            let chosen = Self::unsealed_payload(self.key_bytes(), env@);
            assert(ct@ == aes_gcm_seal(self.key_bytes(), env@.take(12), chosen));
            assert(payload@ == chosen);
            lemma_envelope_parts(self.key_bytes(), env@);
        }
        match utf8_to_string(payload) {
            Ok(s) => Ok(s),
            Err(_) => Err(SnipError::InvalidEncoding),
        }
    }
}

/// Tamper detection, as far as it is deterministic: when the decoded
/// envelope body is nothing that sealing under the key with the
/// envelope's own nonce can produce, decryption reports
/// `AuthenticationFailed` and never returns text.
pub proof fn lemma_tamper_detected(key: Seq<u8>, blob: Seq<char>, env: Seq<u8>)
    requires
        env.len() >= 12,
        !Encryption::is_sealed_under(key, env),
    ensures
        b64_decode_of(blob) == Some(env) ==> Encryption::decrypt_of(key, blob)
            == Result::<Seq<char>, SnipError>::Err(SnipError::AuthenticationFailed),
{
}

/// For any 12-byte nonce and payload whose sealing makes up `env`, the
/// envelope splits back into exactly that nonce and sealing.
proof fn lemma_envelope_parts(key: Seq<u8>, env: Seq<u8>)
    ensures
        forall|nonce: Seq<u8>, p: Seq<u8>|
            nonce.len() == 12 && env == nonce + #[trigger] aes_gcm_seal(key, nonce, p)
            ==> env.take(12) == nonce && env.skip(12) == aes_gcm_seal(key, nonce, p),
{
    assert forall|nonce: Seq<u8>, p: Seq<u8>|
        nonce.len() == 12 && env == nonce + #[trigger] aes_gcm_seal(key, nonce, p)
        implies env.take(12) == nonce && env.skip(12) == aes_gcm_seal(key, nonce, p) by {
        assert(env.take(12) =~= nonce);
        assert(env.skip(12) =~= aes_gcm_seal(key, nonce, p));
    }
}

} // verus!
