//! Secrets at rest: `enc:` + base64(nonce ‖ AES-256-GCM ciphertext), with a
//! fresh random 96-bit nonce per value. A value without the prefix is
//! legacy plaintext and passes through decryption unchanged.

use vstd::prelude::*;
use vstd::utf8::{decode_utf8, encode_utf8, valid_utf8};
use crate::text::{copy_str, push_char, starts_with, starts_with_spec, suffix_from, chars_of};

verus! {

/// The prefix marking an encrypted value.
pub open spec fn enc_prefix_spec() -> Seq<char> {
    "enc:"@
}

/// What the standard base64 engine decodes `input` to, `None` when it is
/// not valid base64.
pub uninterp spec fn base64_standard_decode(input: Seq<u8>) -> Option<Seq<u8>>;

/// What the standard base64 engine encodes `bytes` to.
pub uninterp spec fn base64_standard_encode(bytes: Seq<u8>) -> Seq<char>;

/// AES-256-GCM encryption of `plain` under `key` and `nonce` (ciphertext
/// with its tag), `None` when the cipher refuses the input.
pub uninterp spec fn aes256gcm_seal(key: Seq<u8>, nonce: Seq<u8>, plain: Seq<u8>) -> Option<Seq<u8>>;

/// AES-256-GCM decryption of `sealed` under `key` and `nonce`, `None` when
/// authentication fails.
pub uninterp spec fn aes256gcm_open(key: Seq<u8>, nonce: Seq<u8>, sealed: Seq<u8>) -> Option<Seq<u8>>;

/// `base64::engine::general_purpose::STANDARD.decode(s).ok()`.
#[verifier::external_body]
pub(crate) fn decode_base64(s: &str) -> (r: Option<Vec<u8>>)
    ensures
        match r {
            Some(v) => base64_standard_decode(encode_utf8(s@)) == Some(v@),
            None => base64_standard_decode(encode_utf8(s@)).is_none(),
        },
{
    base64::Engine::decode(&base64::engine::general_purpose::STANDARD, s).ok()
}

/// `base64::engine::general_purpose::STANDARD.encode(bytes)`; decoding the
/// result gives the bytes back.
#[verifier::external_body]
fn encode_base64(bytes: &[u8]) -> (r: String)
    ensures
        r@ == base64_standard_encode(bytes@),
        base64_standard_decode(encode_utf8(r@)) == Some(bytes@),
{
    base64::Engine::encode(&base64::engine::general_purpose::STANDARD, bytes)
}

/// `Aes256Gcm::new(key).encrypt(nonce, plain).ok()`; what it seals opens
/// back to the plaintext under the same key and nonce.
#[verifier::external_body]
fn aes_seal(key: &[u8; 32], nonce: &[u8], plain: &[u8]) -> (r: Option<Vec<u8>>)
    requires
        nonce@.len() == 12,
    ensures
        match r {
            Some(c) => aes256gcm_seal(key@, nonce@, plain@) == Some(c@) && aes256gcm_open(key@, nonce@, c@) == Some(
                plain@,
            ),
            None => aes256gcm_seal(key@, nonce@, plain@).is_none(),
        },
{
    let cipher = <aes_gcm::Aes256Gcm as aes_gcm::KeyInit>::new(aes_gcm::Key::<aes_gcm::Aes256Gcm>::from_slice(key));
    aes_gcm::aead::Aead::encrypt(&cipher, aes_gcm::Nonce::from_slice(nonce), plain).ok()
}

/// `Aes256Gcm::new(key).decrypt(nonce, sealed).ok()`.
#[verifier::external_body]
fn aes_open(key: &[u8; 32], nonce: &[u8], sealed: &[u8]) -> (r: Option<Vec<u8>>)
    requires
        nonce@.len() == 12,
    ensures
        match r {
            Some(p) => aes256gcm_open(key@, nonce@, sealed@) == Some(p@),
            None => aes256gcm_open(key@, nonce@, sealed@).is_none(),
        },
{
    let cipher = <aes_gcm::Aes256Gcm as aes_gcm::KeyInit>::new(aes_gcm::Key::<aes_gcm::Aes256Gcm>::from_slice(key));
    aes_gcm::aead::Aead::decrypt(&cipher, aes_gcm::Nonce::from_slice(nonce), sealed).ok()
}

/// `Aes256Gcm::generate_nonce(&mut OsRng)`: 12 random bytes.
#[verifier::external_body]
fn random_nonce() -> (r: Vec<u8>)
    ensures
        r@.len() == 12,
{
    <aes_gcm::Aes256Gcm as aes_gcm::AeadCore>::generate_nonce(&mut aes_gcm::aead::OsRng).to_vec()
}

/// `String::from_utf8(bytes).ok()`: the decoded text when the bytes are
/// valid UTF-8.
#[verifier::external_body]
fn utf8_text(bytes: Vec<u8>) -> (r: Option<String>)
    ensures
        match r {
            Some(s) => valid_utf8(bytes@) && s@ == decode_utf8(bytes@),
            None => !valid_utf8(bytes@),
        },
{
    String::from_utf8(bytes).ok()
}

/// Why a stored secret could not be decrypted (or encrypted).
#[derive(Debug, Clone, Copy, PartialEq, Eq, Structural)]
pub enum SecretError {
    /// The text after `enc:` is not base64.
    InvalidBase64,
    /// The decoded payload is shorter than a nonce.
    Truncated,
    /// Authentication failed: wrong key or tampered ciphertext.
    Authentication,
    /// The decrypted bytes are not UTF-8.
    NotUtf8,
    /// The cipher refused to encrypt.
    EncryptionFailed,
}

impl SecretError {
    /// The text each error is reported with.
    pub open spec fn message_spec(self) -> Seq<char> {
        match self {
            SecretError::InvalidBase64 => "encrypted secret is not valid base64"@,
            SecretError::Truncated => "encrypted secret is truncated"@,
            SecretError::Authentication => "failed to decrypt secret (wrong key or corrupted value)"@,
            SecretError::NotUtf8 => "decrypted secret is not valid UTF-8"@,
            SecretError::EncryptionFailed => "failed to encrypt secret"@,
        }
    }

    /// A human-readable description.
    pub fn message(self) -> (r: String)
        ensures
            r@ == self.message_spec(),
    {
        match self {
            SecretError::InvalidBase64 => String::from_str("encrypted secret is not valid base64"),
            SecretError::Truncated => String::from_str("encrypted secret is truncated"),
            SecretError::Authentication => String::from_str(
                "failed to decrypt secret (wrong key or corrupted value)",
            ),
            SecretError::NotUtf8 => String::from_str("decrypted secret is not valid UTF-8"),
            SecretError::EncryptionFailed => String::from_str("failed to encrypt secret"),
        }
    }
}

/// What decrypting a stored value yields.
pub open spec fn decrypt_spec(value: Seq<char>, key: Seq<u8>) -> Result<Seq<char>, SecretError> {
    if !starts_with_spec(value, enc_prefix_spec()) {
        Ok(value)
    } else {
        match base64_standard_decode(encode_utf8(value.subrange(4, value.len() as int))) {
            None => Err(SecretError::InvalidBase64),
            Some(raw) => if raw.len() < 12 {
                Err(SecretError::Truncated)
            } else {
                match aes256gcm_open(key, raw.subrange(0, 12), raw.subrange(12, raw.len() as int)) {
                    None => Err(SecretError::Authentication),
                    Some(p) => if valid_utf8(p) {
                        Ok(decode_utf8(p))
                    } else {
                        Err(SecretError::NotUtf8)
                    },
                }
            },
        }
    }
}

/// The stored form of `plain` under `key` with `nonce`.
pub open spec fn sealed_form(key: Seq<u8>, nonce: Seq<u8>, plain: Seq<char>) -> Option<Seq<char>> {
    match aes256gcm_seal(key, nonce, encode_utf8(plain)) {
        Some(c) => Some(enc_prefix_spec() + base64_standard_encode(nonce + c)),
        None => None,
    }
}

fn concat_str(a: &str, b: &str) -> (r: String)
    ensures
        r@ == a@ + b@,
{
    let mut out = copy_str(a);
    let cs = chars_of(b);
    let mut i: usize = 0;
    while i < cs.len()
        invariant
            i <= cs@.len(),
            cs@ == b@,
            out@ == a@ + cs@.subrange(0, i as int),
        decreases cs@.len() - i,
    {
        push_char(&mut out, cs[i]);
        i = i + 1;
    }
    assert(cs@.subrange(0, cs@.len() as int) =~= cs@);
    out
}

/// Encrypt `value` under `key` with a fresh random nonce. What comes back
/// decrypts to `value` under the same key.
pub fn encrypt_secret(value: &str, key: &[u8; 32]) -> (r: Result<String, SecretError>)
    ensures
        match r {
            Ok(s) => (exists|nonce: Seq<u8>| nonce.len() == 12 && sealed_form(key@, nonce, value@) == Some(s@))
                && decrypt_spec(s@, key@) == Ok::<Seq<char>, SecretError>(value@),
            Err(e) => e == SecretError::EncryptionFailed && exists|nonce: Seq<u8>|
                nonce.len() == 12 && sealed_form(key@, nonce, value@).is_none(),
        },
{
    let nonce = random_nonce();
    let bytes = value.as_bytes();
    match aes_seal(key, nonce.as_slice(), bytes) {
        None => Err(SecretError::EncryptionFailed),
        Some(sealed) => {
            let mut payload: Vec<u8> = Vec::new();
            let mut i: usize = 0;
            while i < 12
                invariant
                    i <= 12,
                    nonce@.len() == 12,
                    payload@ == nonce@.subrange(0, i as int),
                decreases 12 - i,
            {
                payload.push(nonce[i]);
                i = i + 1;
            }
            let mut j: usize = 0;
            while j < sealed.len()
                invariant
                    j <= sealed@.len(),
                    nonce@.len() == 12,
                    payload@ == nonce@ + sealed@.subrange(0, j as int),
                decreases sealed@.len() - j,
            {
                payload.push(sealed[j]);
                j = j + 1;
            }
            proof {
                assert(nonce@.subrange(0, 12) =~= nonce@);
                assert(sealed@.subrange(0, sealed@.len() as int) =~= sealed@);
            }
            let encoded = encode_base64(payload.as_slice());
            let out = concat_str("enc:", encoded.as_str());
            proof {
                reveal_strlit("enc:");
                let s = out@;
                assert(s.subrange(4, s.len() as int) =~= encoded@);
                assert(s.subrange(0, 4) =~= "enc:"@);
                assert(starts_with_spec(s, enc_prefix_spec()));
                let raw = payload@;
                assert(raw.subrange(0, 12) =~= nonce@);
                assert(raw.subrange(12, raw.len() as int) =~= sealed@);
                vstd::utf8::encode_utf8_valid_utf8(value@);
                vstd::utf8::encode_utf8_decode_utf8(value@);
                assert(sealed_form(key@, nonce@, value@) == Some(out@));
            }
            Ok(out)
        },
    }
}

/// Decrypt a stored value: legacy plaintext passes through, an `enc:` value
/// is decoded, authenticated and decrypted.
pub fn decrypt_secret(value: &str, key: &[u8; 32]) -> (r: Result<String, SecretError>)
    ensures
        match r {
            Ok(s) => decrypt_spec(value@, key@) == Ok::<Seq<char>, SecretError>(s@),
            Err(e) => decrypt_spec(value@, key@) == Err::<Seq<char>, SecretError>(e),
        },
{
    proof {
        reveal_strlit("enc:");
    }
    if !starts_with(value, "enc:") {
        return Ok(copy_str(value));
    }
    let rest = suffix_from(value, 4);
    let raw = match decode_base64(rest.as_str()) {
        None => return Err(SecretError::InvalidBase64),
        Some(raw) => raw,
    };
    if raw.len() < 12 {
        return Err(SecretError::Truncated);
    }
    let mut nonce: Vec<u8> = Vec::new();
    let mut sealed: Vec<u8> = Vec::new();
    let mut i: usize = 0;
    while i < raw.len()
        invariant
            i <= raw@.len(),
            12 <= raw@.len(),
            i < 12 ==> nonce@ == raw@.subrange(0, i as int) && sealed@.len() == 0,
            i >= 12 ==> nonce@ == raw@.subrange(0, 12) && sealed@ == raw@.subrange(12, i as int),
        decreases raw@.len() - i,
    {
        if i < 12 {
            nonce.push(raw[i]);
        } else {
            sealed.push(raw[i]);
        }
        proof {
            if i + 1 == 12 {
                assert(sealed@ =~= raw@.subrange(12, 12));
            }
        }
        i = i + 1;
    }
    let plain = match aes_open(key, nonce.as_slice(), sealed.as_slice()) {
        None => return Err(SecretError::Authentication),
        Some(p) => p,
    };
    match utf8_text(plain) {
        None => Err(SecretError::NotUtf8),
        Some(s) => Ok(s),
    }
}

/// Whether `value` carries the encrypted-value prefix.
pub fn is_encrypted(value: &str) -> (r: bool)
    ensures
        r == starts_with_spec(value@, enc_prefix_spec()),
{
    proof {
        reveal_strlit("enc:");
    }
    starts_with(value, "enc:")
}

} // verus!
