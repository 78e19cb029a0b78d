use vstd::prelude::*;

verus! {

/// Most plaintext bytes AES-GCM seals in one message (`aes_gcm::P_MAX`).
pub const SEAL_MAX: u64 = 0x10_0000_0000;

/// AES-256-GCM ciphertext (followed by its 16-byte tag) of `pt` under
/// `key` and `nonce`, with no associated data.
pub uninterp spec fn aes_gcm_seal(key: Seq<u8>, nonce: Seq<u8>, pt: Seq<u8>) -> Seq<u8>;

/// The plaintext AES-256-GCM recovers from `ct` under `key` and `nonce`,
/// `None` when the tag does not authenticate.
pub uninterp spec fn aes_gcm_open(key: Seq<u8>, nonce: Seq<u8>, ct: Seq<u8>) -> Option<Seq<u8>>;

/// `aes_gcm::Aes256Gcm::new(key).encrypt(nonce, pt)` (`Aead`): the
/// ciphertext with its 16-byte tag appended.  The contract names the result,
/// states its length, and that decrypting it with the same key and nonce
/// gives `pt` back (the correctness of an AEAD).  Encryption fails only for
/// plaintexts above `P_MAX`, which `requires` leaves out.
#[verifier::external_body]
pub fn aes256gcm_encrypt(key: &[u8; 32], nonce: &[u8; 12], pt: &[u8]) -> (ct: Vec<u8>)
    requires
        pt@.len() <= SEAL_MAX,
    ensures
        ct@ == aes_gcm_seal(key@, nonce@, pt@),
        ct@.len() == pt@.len() + 16,
        aes_gcm_open(key@, nonce@, ct@) == Some(pt@),
{
    let cipher = <aes_gcm::Aes256Gcm as aes_gcm::aead::KeyInit>::new(key.into());
    aes_gcm::aead::Aead::encrypt(&cipher, aes_gcm::Nonce::from_slice(nonce), pt).unwrap()
}

/// `aes_gcm::Aes256Gcm::new(key).decrypt(nonce, ct)` (`Aead`): the
/// plaintext, or `None` when the tag does not authenticate.  The contract
/// names the result.
#[verifier::external_body]
pub fn aes256gcm_decrypt(key: &[u8; 32], nonce: &[u8], ct: &[u8]) -> (pt: Option<Vec<u8>>)
    requires
        nonce@.len() == 12,
    ensures
        pt is Some <==> aes_gcm_open(key@, nonce@, ct@) is Some,
        pt matches Some(p) ==> aes_gcm_open(key@, nonce@, ct@) == Some(p@),
{
    let cipher = <aes_gcm::Aes256Gcm as aes_gcm::aead::KeyInit>::new(key.into());
    aes_gcm::aead::Aead::decrypt(&cipher, aes_gcm::Nonce::from_slice(nonce), ct).ok()
}

/// `rand::random::<[u8; 12]>()`: twelve random bytes.  Nothing is stated of
/// them.
#[verifier::external_body]
pub fn random_nonce() -> (n: [u8; 12]) {
    rand::random::<[u8; 12]>()
}

/// `getrandom::getrandom`: twelve bytes from the system's source, or the
/// text of its error when it fails.  Nothing is stated of either.
#[verifier::external_body]
pub fn os_random_nonce() -> (n: Result<[u8; 12], String>) {
    let mut b = [0u8; 12];
    match getrandom::getrandom(&mut b) {
        Ok(()) => Ok(b),
        Err(e) => Err(e.to_string()),
    }
}

} // verus!
