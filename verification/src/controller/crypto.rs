//! Secrets at rest and token primitives. `SecretBox` is AES-256-GCM with a
//! 32-byte key given as base64; a ciphertext is its 12-byte nonce followed
//! by the sealed text and tag.

use crate::encoding::{
    base64_standard_decode, base64_standard_decoded, base64_url_encode, base64_url_encoded,
    utf8_decode, utf8_decoded,
};
use crate::text::{chars_of, string_from, string_of, trim, trim_chars};
use aes_gcm::aead::{Aead, AeadCore, KeyInit, OsRng};
use rand::RngCore;
use sha2::Digest;
use vstd::prelude::*;
use vstd::string::StringSliceAdditionalSpecFns;

verus! {

pub const NONCE_LEN: usize = 12;

/// Bytes the GCM tag adds to a sealed text.
pub const TAG_LEN: usize = 16;

/// Longest plaintext AES-GCM accepts (2^36 bytes).
pub const MAX_PLAINTEXT: u64 = 68719476736;

#[derive(Debug)]
pub enum CryptoError {
    BadKey,
    Decrypt,
}

impl CryptoError {
    pub open spec fn message_spec(&self) -> Seq<char> {
        match self {
            CryptoError::BadKey => "FOUNDRY_ENCRYPTION_KEY must be base64 of exactly 32 bytes"@,
            CryptoError::Decrypt => "decryption failed (wrong key or corrupted ciphertext)"@,
        }
    }

    /// The error's text, as `to_string()` renders it.
    pub fn message(&self) -> (r: String)
        ensures
            r@ == self.message_spec(),
    {
        match self {
            CryptoError::BadKey => string_from(
                "FOUNDRY_ENCRYPTION_KEY must be base64 of exactly 32 bytes",
            ),
            CryptoError::Decrypt => string_from(
                "decryption failed (wrong key or corrupted ciphertext)",
            ),
        }
    }
}

/// The sealed text (ciphertext and tag) AES-256-GCM produces for a key,
/// nonce and plaintext.
pub uninterp spec fn gcm_sealed(key: Seq<u8>, nonce: Seq<u8>, plaintext: Seq<u8>) -> Seq<u8>;

/// What AES-256-GCM opens a sealed text to, or `None` when authentication
/// fails.
pub uninterp spec fn gcm_opened(key: Seq<u8>, nonce: Seq<u8>, sealed: Seq<u8>) -> Option<Seq<u8>>;

/// `Aes256Gcm::encrypt` under `Aes256Gcm::new(key)`: the sealed text is
/// the plaintext's length plus the 16-byte tag, and opening it with the
/// same key and nonce gives the plaintext back. Encryption only fails for
/// a plaintext over 2^36 bytes, which `requires` leaves out.
#[verifier::external_body]
fn gcm_seal(key: &[u8], nonce: &[u8], plaintext: &[u8]) -> (r: Vec<u8>)
    requires
        key@.len() == 32,
        nonce@.len() == NONCE_LEN,
        plaintext@.len() <= MAX_PLAINTEXT,
    ensures
        r@ == gcm_sealed(key@, nonce@, plaintext@),
        r@.len() == plaintext@.len() + TAG_LEN,
        gcm_opened(key@, nonce@, r@) == Some(plaintext@),
{
    let cipher = aes_gcm::Aes256Gcm::new(aes_gcm::Key::<aes_gcm::Aes256Gcm>::from_slice(key));
    cipher.encrypt(aes_gcm::Nonce::from_slice(nonce), plaintext).unwrap()
}

/// `Aes256Gcm::decrypt` under `Aes256Gcm::new(key)`.
#[verifier::external_body]
fn gcm_open(key: &[u8], nonce: &[u8], sealed: &[u8]) -> (r: Option<Vec<u8>>)
    requires
        key@.len() == 32,
        nonce@.len() == NONCE_LEN,
    ensures
        match r {
            Some(p) => gcm_opened(key@, nonce@, sealed@) == Some(p@),
            None => gcm_opened(key@, nonce@, sealed@) is None,
        },
{
    let cipher = aes_gcm::Aes256Gcm::new(aes_gcm::Key::<aes_gcm::Aes256Gcm>::from_slice(key));
    cipher.decrypt(aes_gcm::Nonce::from_slice(nonce), sealed).ok()
}

/// `Aes256Gcm::generate_nonce(&mut OsRng)`: 12 random bytes.
#[verifier::external_body]
fn fresh_nonce() -> (r: Vec<u8>)
    ensures
        r@.len() == NONCE_LEN,
{
    aes_gcm::Aes256Gcm::generate_nonce(&mut OsRng).to_vec()
}

/// `rand::rng().fill_bytes` into 32 bytes.
#[verifier::external_body]
fn random_bytes() -> (r: Vec<u8>)
    ensures
        r@.len() == 32,
{
    let mut bytes = [0u8; 32];
    rand::rng().fill_bytes(&mut bytes);
    bytes.to_vec()
}

/// The SHA-256 digest of the bytes.
pub uninterp spec fn sha256_digest(bytes: Seq<u8>) -> Seq<u8>;

/// `Sha256::digest`: the 32-byte digest.
#[verifier::external_body]
fn sha256(bytes: &[u8]) -> (r: Vec<u8>)
    ensures
        r@ == sha256_digest(bytes@),
        r@.len() == 32,
{
    sha2::Sha256::digest(bytes).to_vec()
}

/// The secret-at-rest box: an AES-256 key.
pub struct SecretBox {
    key: Vec<u8>,
}

impl SecretBox {
    pub open spec fn wf(&self) -> bool {
        self.key_spec().len() == 32
    }

    pub closed spec fn key_spec(&self) -> Seq<u8> {
        self.key@
    }

    /// What `decrypt` gives for stored data.
    pub open spec fn opened(&self, data: Seq<u8>) -> Option<Seq<u8>> {
        if data.len() < NONCE_LEN {
            None
        } else {
            gcm_opened(self.key_spec(), data.take(NONCE_LEN as int), data.skip(NONCE_LEN as int))
        }
    }

    /// A box from the base64 text of a 32-byte key (surrounding white space
    /// ignored).
    pub fn from_base64_key(b64: &str) -> (r: Result<SecretBox, CryptoError>)
        ensures
            r is Ok <==> (base64_standard_decoded(trim(b64@)) matches Some(k) && k.len() == 32),
            r matches Ok(b) ==> b.wf() && Some(b.key_spec()) == base64_standard_decoded(
                trim(b64@),
            ),
            r matches Err(e) ==> e is BadKey,
    {
        let v = chars_of(b64);
        let t = string_of(trim_chars(v.as_slice()).as_slice());
        let bytes = match base64_standard_decode(t.as_str()) {
            Some(b) => b,
            None => {
                return Err(CryptoError::BadKey);
            },
        };
        if bytes.len() != 32 {
            return Err(CryptoError::BadKey);
        }
        Ok(SecretBox { key: bytes })
    }

    /// Seals a plaintext under a fresh random nonce.
    pub fn encrypt(&self, plaintext: &[u8]) -> (r: Vec<u8>)
        requires
            self.wf(),
            plaintext@.len() <= MAX_PLAINTEXT,
        ensures
            r@.len() == NONCE_LEN + plaintext@.len() + TAG_LEN,
            self.opened(r@) == Some(plaintext@),
    {
        let nonce = fresh_nonce();
        let sealed = gcm_seal(self.key.as_slice(), nonce.as_slice(), plaintext);
        let mut out = nonce.clone();
        let ghost n = nonce@;
        assert(out@ == n);
        let m = sealed.len();
        for i in 0..m
            invariant
                m == sealed@.len(),
                out@ == n + sealed@.take(i as int),
        {
            out.push(sealed[i]);
            assert(out@ =~= n + sealed@.take(i + 1));
        }
        assert(sealed@.take(m as int) =~= sealed@);
        assert(out@.take(NONCE_LEN as int) =~= n);
        assert(out@.skip(NONCE_LEN as int) =~= sealed@);
        out
    }

    pub fn encrypt_str(&self, plaintext: &str) -> (r: Vec<u8>)
        requires
            self.wf(),
            plaintext.spec_bytes().len() <= MAX_PLAINTEXT,
        ensures
            r@.len() == NONCE_LEN + plaintext.spec_bytes().len() + TAG_LEN,
            self.opened(r@) == Some(plaintext.spec_bytes()),
    {
        self.encrypt(plaintext.as_bytes())
    }

    /// Opens stored data: a nonce followed by the sealed text.
    pub fn decrypt(&self, data: &[u8]) -> (r: Result<Vec<u8>, CryptoError>)
        requires
            self.wf(),
        ensures
            match r {
                Ok(p) => self.opened(data@) == Some(p@),
                Err(e) => self.opened(data@) is None && e is Decrypt,
            },
    {
        if data.len() < NONCE_LEN {
            return Err(CryptoError::Decrypt);
        }
        let (nonce, sealed) = data.split_at(NONCE_LEN);
        assert(nonce@ =~= data@.take(NONCE_LEN as int));
        assert(sealed@ =~= data@.skip(NONCE_LEN as int));
        match gcm_open(self.key.as_slice(), nonce, sealed) {
            Some(p) => Ok(p),
            None => Err(CryptoError::Decrypt),
        }
    }

    /// Opens stored data that holds UTF-8 text.
    pub fn decrypt_str(&self, data: &[u8]) -> (r: Result<String, CryptoError>)
        requires
            self.wf(),
        ensures
            match r {
                Ok(s) => self.opened(data@) matches Some(p) && utf8_decoded(p) == Some(s@),
                Err(e) => e is Decrypt && (self.opened(data@) is None || (self.opened(
                    data@,
                ) matches Some(p) && utf8_decoded(p) is None)),
            },
    {
        let bytes = match self.decrypt(data) {
            Ok(b) => b,
            Err(e) => {
                return Err(e);
            },
        };
        match utf8_decode(bytes) {
            Some(s) => Ok(s),
            None => Err(CryptoError::Decrypt),
        }
    }
}

/// A 256-bit URL-safe random token (sessions, enrollment).
pub fn random_token() -> (r: String)
    ensures
        exists|bytes: Seq<u8>| bytes.len() == 32 && r@ == base64_url_encoded(bytes),
{
    let bytes = random_bytes();
    base64_url_encode(bytes.as_slice())
}

/// The SHA-256 of a presented token, the only form stored at rest.
pub fn token_hash(token: &str) -> (r: Vec<u8>)
    ensures
        r@ == sha256_digest(token.spec_bytes()),
        r@.len() == 32,
{
    sha256(token.as_bytes())
}

} // verus!
