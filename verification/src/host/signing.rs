use vstd::prelude::*;
use crate::codec::{base64_decode, base64_decode_spec, hex_encode, hex_spec, sha256, sha256_spec};
use crate::text::{concat, str_eq};

verus! {

/// Whether the 32 bytes are a valid Ed25519 public key.
pub uninterp spec fn ed25519_key_valid(key: Seq<u8>) -> bool;

/// Whether `sig` is a valid Ed25519 signature of `msg` under `key`.
pub uninterp spec fn ed25519_verify_spec(key: Seq<u8>, msg: Seq<u8>, sig: Seq<u8>) -> bool;

/// `ed25519_dalek::VerifyingKey::from_bytes`: whether the bytes decode to a
/// public key.  The contract names the answer.
#[verifier::external_body]
fn ed25519_check_key(key: &[u8; 32]) -> (ok: bool)
    ensures
        ok == ed25519_key_valid(key@),
{
    ed25519_dalek::VerifyingKey::from_bytes(key).is_ok()
}

/// `ed25519_dalek::VerifyingKey::verify` (`Verifier`) of `msg` against the
/// 64-byte signature, for a key that `VerifyingKey::from_bytes` accepts.
/// The contract names the answer.
#[verifier::external_body]
fn ed25519_verify(key: &[u8; 32], msg: &[u8], sig: &[u8; 64]) -> (ok: bool)
    requires
        ed25519_key_valid(key@),
    ensures
        ok == ed25519_verify_spec(key@, msg@, sig@),
{
    match ed25519_dalek::VerifyingKey::from_bytes(key) {
        Ok(k) => ed25519_dalek::Verifier::verify(&k, msg, &ed25519_dalek::Signature::from_bytes(sig)).is_ok(),
        Err(_) => false,
    }
}

/// An Ed25519 public key that decodes.
#[derive(Clone, Copy, Debug)]
pub struct VerifyingKey {
    bytes: [u8; 32],
}

impl VerifyingKey {
    pub closed spec fn bytes_view(&self) -> Seq<u8> {
        self.bytes@
    }

    #[verifier::type_invariant]
    closed spec fn decodes(&self) -> bool {
        ed25519_key_valid(self.bytes@)
    }

    /// The key's 32 bytes.
    pub fn to_bytes(&self) -> (b: [u8; 32])
        ensures
            b@ == self.bytes_view(),
    {
        self.bytes
    }
}

/// Why a module's integrity check or a key failed.
#[derive(Debug)]
pub enum SigningError {
    /// The module's digest is not the manifest's.
    Sha256Mismatch { expected: String, computed: String },
    /// The signature field is not Base64.
    SignatureNotBase64,
    /// The signature does not have 64 bytes.
    SignatureLength,
    /// The signature does not verify.
    SignatureRejected,
    /// The key is not Base64.
    KeyNotBase64,
    /// The key does not have 32 bytes.
    KeyLength,
    /// The 32 bytes are no Ed25519 public key.
    KeyInvalid,
}

/// The text of a signing error.
pub open spec fn signing_error_text(e: SigningError) -> Seq<char> {
    match e {
        SigningError::Sha256Mismatch { expected, computed } => "SHA256 mismatch: expected "@ + expected@ + ", computed "@
            + computed@,
        SigningError::SignatureNotBase64 => "invalid base64 in signature field"@,
        SigningError::SignatureLength => "signature must be 64 bytes"@,
        SigningError::SignatureRejected => "Ed25519 signature verification failed"@,
        SigningError::KeyNotBase64 => "invalid base64 for public key"@,
        SigningError::KeyLength => "verifying key must be 32 bytes"@,
        SigningError::KeyInvalid => "invalid Ed25519 public key"@,
    }
}

/// The outcome of checking a module against the manifest's digest and
/// signature, stated over the digest, the Base64 decoding and Ed25519.
pub open spec fn verify_wasm_spec(bytes: Seq<u8>, expected: Seq<char>, sig_b64: Seq<char>, key: Seq<u8>) -> Option<SigningErrorKind> {
    let hash = sha256_spec(bytes);
    if hex_spec(hash) != expected {
        Some(SigningErrorKind::Sha256Mismatch)
    } else {
        match base64_decode_spec(sig_b64) {
            None => Some(SigningErrorKind::SignatureNotBase64),
            Some(sig) => if sig.len() != 64 {
                Some(SigningErrorKind::SignatureLength)
            } else if !ed25519_verify_spec(key, hash, sig) {
                Some(SigningErrorKind::SignatureRejected)
            } else {
                None
            },
        }
    }
}

/// The variant of a `SigningError`.
#[derive(Clone, Copy, Debug, PartialEq, Eq, Structural)]
pub enum SigningErrorKind {
    Sha256Mismatch,
    SignatureNotBase64,
    SignatureLength,
    SignatureRejected,
    KeyNotBase64,
    KeyLength,
    KeyInvalid,
}

impl SigningError {
    pub open spec fn kind(&self) -> SigningErrorKind {
        match self {
            SigningError::Sha256Mismatch { .. } => SigningErrorKind::Sha256Mismatch,
            SigningError::SignatureNotBase64 => SigningErrorKind::SignatureNotBase64,
            SigningError::SignatureLength => SigningErrorKind::SignatureLength,
            SigningError::SignatureRejected => SigningErrorKind::SignatureRejected,
            SigningError::KeyNotBase64 => SigningErrorKind::KeyNotBase64,
            SigningError::KeyLength => SigningErrorKind::KeyLength,
            SigningError::KeyInvalid => SigningErrorKind::KeyInvalid,
        }
    }

    /// The error's text.
    pub fn message(&self) -> (s: String)
        ensures
            s@ == signing_error_text(*self),
    {
        match self {
            SigningError::Sha256Mismatch { expected, computed } => {
                let a = concat("SHA256 mismatch: expected ", expected.as_str());
                let b = concat(a.as_str(), ", computed ");
                concat(b.as_str(), computed.as_str())
            },
            SigningError::SignatureNotBase64 => String::from_str("invalid base64 in signature field"),
            SigningError::SignatureLength => String::from_str("signature must be 64 bytes"),
            SigningError::SignatureRejected => String::from_str("Ed25519 signature verification failed"),
            SigningError::KeyNotBase64 => String::from_str("invalid base64 for public key"),
            SigningError::KeyLength => String::from_str("verifying key must be 32 bytes"),
            SigningError::KeyInvalid => String::from_str("invalid Ed25519 public key"),
        }
    }
}

fn to_array_64(v: &Vec<u8>) -> (a: [u8; 64])
    requires
        v@.len() == 64,
    ensures
        a@ == v@,
{
    let mut a = [0u8; 64];
    let mut i: usize = 0;
    while i < 64
        invariant
            i <= 64,
            v@.len() == 64,
            a@.len() == 64,
            forall|j: int| 0 <= j < i ==> a@[j] == v@[j],
        decreases 64 - i,
    {
        a[i] = v[i];
        i = i + 1;
    }
    assert(a@ =~= v@);
    a
}

fn to_array_32(v: &Vec<u8>) -> (a: [u8; 32])
    requires
        v@.len() == 32,
    ensures
        a@ == v@,
{
    let mut a = [0u8; 32];
    let mut i: usize = 0;
    while i < 32
        invariant
            i <= 32,
            v@.len() == 32,
            a@.len() == 32,
            forall|j: int| 0 <= j < i ==> a@[j] == v@[j],
        decreases 32 - i,
    {
        a[i] = v[i];
        i = i + 1;
    }
    assert(a@ =~= v@);
    a
}

/// Checks a module against the manifest: its SHA-256 in lower-case hex must
/// be `expected_sha256`, and `signature_b64` must be the Base64 of a valid
/// Ed25519 signature of that digest under `verifying_key`.
pub fn verify_wasm(bytes: &[u8], expected_sha256: &str, signature_b64: &str, verifying_key: &VerifyingKey) -> (r: Result<(), SigningError>)
    ensures
        r is Ok <==> verify_wasm_spec(bytes@, expected_sha256@, signature_b64@, verifying_key.bytes_view()) is None,
        r matches Err(e) ==> verify_wasm_spec(bytes@, expected_sha256@, signature_b64@, verifying_key.bytes_view()) == Some(e.kind()),
        r matches Err(SigningError::Sha256Mismatch { expected, computed }) ==> expected@ == expected_sha256@
            && computed@ == hex_spec(sha256_spec(bytes@)),
{
    let hash = sha256(bytes);
    let computed_hex = hex_encode(hash.as_slice());
    if !str_eq(computed_hex.as_str(), expected_sha256) {
        return Err(SigningError::Sha256Mismatch { expected: String::from_str(expected_sha256), computed: computed_hex });
    }
    let sig_bytes = match base64_decode(signature_b64) {
        Ok(b) => b,
        Err(_) => return Err(SigningError::SignatureNotBase64),
    };
    if sig_bytes.len() != 64 {
        return Err(SigningError::SignatureLength);
    }
    let sig = to_array_64(&sig_bytes);
    let key = verifying_key.to_bytes();
    proof {
        use_type_invariant(verifying_key);
    }
    if !ed25519_verify(&key, hash.as_slice(), &sig) {
        return Err(SigningError::SignatureRejected);
    }
    Ok(())
}

/// Reads a public key from Base64: 32 bytes that decode to an Ed25519 key.
pub fn load_verifying_key(b64: &str) -> (r: Result<VerifyingKey, SigningError>)
    ensures
        match base64_decode_spec(b64@) {
            None => r matches Err(e) && e.kind() == SigningErrorKind::KeyNotBase64,
            Some(b) => if b.len() != 32 {
                r matches Err(e) && e.kind() == SigningErrorKind::KeyLength
            } else if !ed25519_key_valid(b) {
                r matches Err(e) && e.kind() == SigningErrorKind::KeyInvalid
            } else {
                r matches Ok(k) && k.bytes_view() == b
            },
        },
{
    let bytes = match base64_decode(b64) {
        Ok(b) => b,
        Err(_) => return Err(SigningError::KeyNotBase64),
    };
    if bytes.len() != 32 {
        return Err(SigningError::KeyLength);
    }
    let arr = to_array_32(&bytes);
    if !ed25519_check_key(&arr) {
        return Err(SigningError::KeyInvalid);
    }
    Ok(VerifyingKey { bytes: arr })
}

} // verus!
