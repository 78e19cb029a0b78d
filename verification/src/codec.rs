use vstd::prelude::*;

verus! {

/// The SHA-256 digest of `data`.
pub uninterp spec fn sha256_spec(data: Seq<u8>) -> Seq<u8>;

/// `sha2::Sha256::digest` (`Digest`), what `new`, `update`, `finalize` give: the 32-byte SHA-256 digest
/// of `data`.  The contract names the digest and states its length.
#[verifier::external_body]
pub fn sha256(data: &[u8]) -> (d: Vec<u8>)
    ensures
        d@ == sha256_spec(data@),
        d@.len() == 32,
{
    <sha2::Sha256 as sha2::Digest>::digest(data).to_vec()
}

/// The lower-case hexadecimal digit for `n < 16`.
pub open spec fn hex_digit(n: nat) -> char {
    if n < 10 {
        ((n + 48) as u8) as char
    } else {
        ((n + 87) as u8) as char
    }
}

/// Two lower-case hexadecimal digits per byte, high nibble first.
pub open spec fn hex_spec(b: Seq<u8>) -> Seq<char>
    decreases b.len(),
{
    if b.len() == 0 {
        seq![]
    } else {
        seq![hex_digit(b[0] as nat / 16), hex_digit(b[0] as nat % 16)] + hex_spec(b.drop_first())
    }
}

/// `hex::encode`: two lower-case hexadecimal digits per byte, high nibble
/// first (the crate's `HEX_CHARS_LOWER` table).
#[verifier::external_body]
pub fn hex_encode(b: &[u8]) -> (s: String)
    ensures
        s@ == hex_spec(b@),
{
    hex::encode(b)
}

/// The standard (padded) Base64 text of `b`.
pub uninterp spec fn base64_encode_spec(b: Seq<u8>) -> Seq<char>;

/// What `STANDARD.decode` makes of `s`: the bytes the standard (padded)
/// Base64 text encodes, or the text of its `DecodeError`.
pub uninterp spec fn base64_decode_result(s: Seq<char>) -> Result<Seq<u8>, Seq<char>>;

/// The bytes that the standard Base64 text `s` encodes, `None` when it is not
/// valid padded Base64.
pub open spec fn base64_decode_spec(s: Seq<char>) -> Option<Seq<u8>> {
    match base64_decode_result(s) {
        Ok(b) => Some(b),
        Err(_) => None,
    }
}

/// `base64::engine::general_purpose::STANDARD.encode`.  The contract names
/// the text and states that decoding it gives `b` back.
#[verifier::external_body]
pub fn base64_encode(b: &[u8]) -> (s: String)
    ensures
        s@ == base64_encode_spec(b@),
        base64_decode_spec(s@) == Some(b@),
{
    base64::Engine::encode(&base64::engine::general_purpose::STANDARD, b)
}

/// `base64::engine::general_purpose::STANDARD.decode`: the bytes, or the
/// text of the `DecodeError` for text that is not valid padded Base64.  The
/// contract names the outcome.
#[verifier::external_body]
pub fn base64_decode(s: &str) -> (r: Result<Vec<u8>, String>)
    ensures
        r matches Ok(b) ==> (base64_decode_result(s@) matches Ok(c) && c == b@),
        r matches Err(e) ==> (base64_decode_result(s@) matches Err(m) && m == e@),
{
    base64::Engine::decode(&base64::engine::general_purpose::STANDARD, s).map_err(|e| e.to_string())
}

} // verus!
