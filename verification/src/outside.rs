//! The calls into outside crates and into parts of std that vstd does not
//! specify. Each function here is trusted: Verus believes its contract, and
//! its doc comment says what the contract claims of the outside code.
use vstd::prelude::*;

use base64::Engine;
use ed25519_dalek::{Signer, Verifier};
use sha2::Digest;

use crate::codec::{base64_spec, hex_lower, json_string};

verus! {

/// Whether `glob::Pattern::new` accepts `pattern`.
pub uninterp spec fn glob_pattern_valid(pattern: Seq<char>) -> bool;

/// Whether the pattern that `glob::Pattern::new(pattern)` compiles matches
/// `path` under `Pattern::matches` (default match options).
pub uninterp spec fn glob_pattern_matches(pattern: Seq<char>, path: Seq<char>) -> bool;

/// `glob::Pattern::new(pattern)`, then `Pattern::matches(path)` on the
/// compiled pattern. Claims: the result is `None` exactly when the pattern
/// does not compile, and otherwise whether it matches; both are functions of
/// the two strings alone.
#[verifier::external_body]
pub(crate) fn glob_match(pattern: &str, path: &str) -> (r: Option<bool>)
    ensures
        r is Some <==> glob_pattern_valid(pattern@),
        r matches Some(b) ==> b == glob_pattern_matches(pattern@, path@),
{
    match glob::Pattern::new(pattern) {
        Ok(p) => Some(p.matches(path)),
        Err(_) => None,
    }
}

/// Whether `char::is_alphanumeric` holds of `c` (Unicode `Alphabetic` or
/// `Numeric`).
pub uninterp spec fn char_alphanumeric(c: char) -> bool;

/// `char::is_alphanumeric`. Claims that the result is a function of `c`,
/// and, as the std documentation gives it (`Alphabetic` or `Numeric`), that
/// among ASCII characters exactly the letters and the digits are
/// alphanumeric.
#[verifier::external_body]
pub(crate) fn is_alphanumeric(c: char) -> (r: bool)
    ensures
        r == char_alphanumeric(c),
        (c as u32) < 128 ==> (r <==> (48 <= c as u32 <= 57 || 65 <= c as u32 <= 90 || 97
            <= c as u32 <= 122)),
{
    c.is_alphanumeric()
}


/// The SHA-256 digest of `data`.
pub uninterp spec fn sha256_digest(data: Seq<u8>) -> Seq<u8>;

/// `sha2::Sha256::digest(data)`. Claims: the digest is a function of the
/// data alone; its 32 bytes are the array's.
#[verifier::external_body]
pub(crate) fn sha256(data: &[u8]) -> (r: [u8; 32])
    ensures
        r@ == sha256_digest(data@),
{
    sha2::Sha256::digest(data).into()
}

/// `hex::encode(data)`. Claims what the crate documents and its source
/// shows: two lower-case hexadecimal digits per byte, high half first.
#[verifier::external_body]
pub(crate) fn hex_encode(data: &[u8]) -> (r: String)
    ensures
        r@ == hex_lower(data@),
{
    hex::encode(data)
}

/// `serde_json::to_string(s)` on a string slice. Claims what serde_json's
/// source shows (`format_escaped_str` and its `ESCAPE` table): a `"`, the
/// characters with `"` and `\` escaped, the control characters below
/// 0x20 escaped as `\b \f \n \r \t` or `\u00` and two lower-case hex
/// digits, every other character as itself, and a closing `"`. Serializing
/// a string writes into a `Vec` and cannot fail, so the error arm is never
/// taken.
#[verifier::external_body]
pub(crate) fn json_string_literal(s: &str) -> (r: String)
    ensures
        r@ == json_string(s@),
{
    match serde_json::to_string(s) {
        Ok(t) => t,
        Err(_) => String::new(),
    }
}

/// `base64::engine::general_purpose::STANDARD.encode(data)`. Claims the
/// standard alphabet with `=` padding, as RFC 4648 and the crate document.
/// The crate panics when the length of the encoding overflows `usize`,
/// which `requires` leaves out.
#[verifier::external_body]
pub(crate) fn base64_encode(data: &[u8]) -> (r: String)
    requires
        data@.len() < usize::MAX / 4,
    ensures
        r@ == base64_spec(data@),
{
    base64::engine::general_purpose::STANDARD.encode(data)
}

/// `base64::engine::general_purpose::STANDARD.decode(text.as_bytes())`,
/// with its error as text. The engine requires canonical padding and
/// rejects non-zero trailing bits, so it accepts exactly the strings that
/// its encoding produces. Claims: the result is `Ok` exactly when `text` is
/// the encoding of some bytes, and then it holds those bytes. The error
/// text is left unsaid.
#[verifier::external_body]
pub(crate) fn base64_decode(text: &str) -> (r: Result<Vec<u8>, String>)
    ensures
        r matches Ok(v) ==> base64_spec(v@) == text@,
        r is Err ==> forall|b: Seq<u8>| base64_spec(b) != text@,
{
    match base64::engine::general_purpose::STANDARD.decode(text.as_bytes()) {
        Ok(v) => Ok(v),
        Err(e) => Err(e.to_string()),
    }
}

/// `ed25519_dalek::Signature::from_slice(bytes)`, the signature taken back
/// to its 64 bytes, with the error as text. Claims: `Ok` exactly when there
/// are 64 bytes, and then those bytes; the error text is `signature error`,
/// as the `signature` crate displays its error.
#[verifier::external_body]
pub(crate) fn signature_from_slice(bytes: &[u8]) -> (r: Result<[u8; 64], String>)
    ensures
        r is Ok <==> bytes@.len() == 64,
        r matches Ok(s) ==> s@ == bytes@,
        r matches Err(m) ==> m@ == "signature error"@,
{
    match ed25519_dalek::Signature::from_slice(bytes) {
        Ok(s) => Ok(s.to_bytes()),
        Err(e) => Err(e.to_string()),
    }
}

/// Whether `VerifyingKey::from_bytes(public_key)` gives a key under which
/// `verify(message, Signature::from_bytes(signature))` is `Ok`.
pub uninterp spec fn ed25519_accepts(public_key: Seq<u8>, message: Seq<u8>, signature: Seq<u8>) -> bool;

/// The signature that `SigningKey::from_bytes(secret).sign(message)` makes
/// (Ed25519 signing is deterministic).
pub uninterp spec fn ed25519_signature(secret: Seq<u8>, message: Seq<u8>) -> Seq<u8>;

/// The bytes of `SigningKey::from_bytes(secret).verifying_key()`.
pub uninterp spec fn ed25519_public_key(secret: Seq<u8>) -> Seq<u8>;

/// `ed25519_dalek::VerifyingKey::from_bytes(public_key)`, then
/// `Verifier::verify(message, &Signature::from_bytes(signature))`, with the
/// error as text. Claims: `Ok` exactly when the key decodes and the
/// signature verifies, a function of the three byte strings alone. The error
/// text is left unsaid.
#[verifier::external_body]
pub(crate) fn ed25519_verify(public_key: &[u8; 32], message: &[u8], signature: &[u8; 64]) -> (r: Result<
    (),
    String,
>)
    ensures
        r is Ok <==> ed25519_accepts(public_key@, message@, signature@),
{
    match ed25519_dalek::VerifyingKey::from_bytes(public_key) {
        Ok(vk) => match vk.verify(message, &ed25519_dalek::Signature::from_bytes(signature)) {
            Ok(()) => Ok(()),
            Err(e) => Err(e.to_string()),
        },
        Err(e) => Err(e.to_string()),
    }
}

/// `ed25519_dalek::SigningKey::from_bytes(secret).sign(message)`, as bytes.
/// Claims: the signature is a function of the secret and the message, and
/// it verifies under the secret's public key, as the crate documents.
#[verifier::external_body]
pub(crate) fn ed25519_sign(secret: &[u8; 32], message: &[u8]) -> (r: [u8; 64])
    ensures
        r@ == ed25519_signature(secret@, message@),
        ed25519_accepts(ed25519_public_key(secret@), message@, r@),
{
    ed25519_dalek::SigningKey::from_bytes(secret).sign(message).to_bytes()
}

/// `SigningKey::from_bytes(secret).verifying_key().to_bytes()`. Claims: a
/// function of the secret.
#[verifier::external_body]
pub(crate) fn ed25519_public(secret: &[u8; 32]) -> (r: [u8; 32])
    ensures
        r@ == ed25519_public_key(secret@),
{
    ed25519_dalek::SigningKey::from_bytes(secret).verifying_key().to_bytes()
}

} // verus!
