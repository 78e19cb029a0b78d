use vstd::prelude::*;
use crate::aead::{aes256gcm_decrypt, aes256gcm_encrypt, aes_gcm_open, aes_gcm_seal, os_random_nonce, SEAL_MAX};
use crate::codec::{base64_decode, base64_decode_result, base64_decode_spec, base64_encode, base64_encode_spec};
use crate::json::{doc_record_str, get_record_str, json_parse_spec, json_text, parse_json, str_member, to_json_string, JsonValue};
use crate::text::{utf8_bytes, utf8_decode, utf8_error_text};

verus! {

broadcast use vstd::utf8::encode_utf8_decode_utf8, vstd::utf8::encode_utf8_valid_utf8;

/// The key the messenger's crypto plugin seals with.
pub fn plugin_key() -> (k: [u8; 32])
    ensures
        k@ == plugin_key_spec(),
{
    let k: [u8; 32] = [
        109, 101, 115, 115, 101, 110, 103, 101, 114, 95, 109, 118, 112, 95, 107, 101, 121, 95,
        51, 50, 95, 98, 121, 116, 101, 115, 95, 108, 111, 110, 103, 33,
    ];
    proof {
        assert(k@ =~= plugin_key_spec());
    }
    k
}

/// The bytes of `messenger_mvp_key_32_bytes_long!`.
pub open spec fn plugin_key_spec() -> Seq<u8> {
    seq![
        109u8, 101, 115, 115, 101, 110, 103, 101, 114, 95, 109, 118, 112, 95, 107, 101, 121, 95,
        51, 50, 95, 98, 121, 116, 101, 115, 95, 108, 111, 110, 103, 33,
    ]
}

/// What `open_b64` gives for `b64`: the text, when `b64` is Base64 of at
/// least 12 bytes, a 12-byte nonce and a ciphertext that opens under the
/// plugin's key to UTF-8; else the error's text: Base64's, `payload too
/// short`, `aead::Error`, or UTF-8's.
pub open spec fn open_spec(b64: Seq<char>) -> Result<Seq<char>, Seq<char>> {
    match base64_decode_result(b64) {
        Err(m) => Err(m),
        Ok(c) => if c.len() < 12 {
            Err("payload too short"@)
        } else {
            match aes_gcm_open(plugin_key_spec(), c.subrange(0, 12), c.subrange(12, c.len() as int)) {
                None => Err("aead::Error"@),
                Some(p) => if vstd::utf8::valid_utf8(p) {
                    Ok(vstd::utf8::decode_utf8(p))
                } else {
                    Err(utf8_error_text(p))
                },
            }
        },
    }
}

/// The Base64 of `nonce` followed by the AES-256-GCM sealing of the
/// text's UTF-8 under the plugin's key and that nonce.
pub open spec fn sealed_text(nonce: Seq<u8>, text: Seq<char>) -> Seq<char> {
    base64_encode_spec(nonce + aes_gcm_seal(plugin_key_spec(), nonce, vstd::utf8::encode_utf8(text)))
}

/// The text is too long for AES-GCM to seal.
pub open spec fn too_long(text: Seq<char>) -> bool {
    vstd::utf8::encode_utf8(text).len() > SEAL_MAX
}

/// Seals `text` under the plugin's key with the nonce the random source
/// gave: a failed source passes its error on; a text too long to seal
/// fails as AES-GCM does (`aead::Error`); otherwise the Base64 of nonce and
/// ciphertext, which opens to `text` again.
pub fn seal_with_nonce(text: &str, nonce: Result<[u8; 12], String>) -> (r: Result<String, String>)
    ensures
        nonce matches Err(e) ==> (r matches Err(m) && m@ == e@),
        nonce is Ok && too_long(text@) ==> (r matches Err(m) && m@ == "aead::Error"@),
        nonce matches Ok(n) ==> (!too_long(text@) ==> (r matches Ok(b) && b@ == sealed_text(n@, text@))),
        r matches Ok(b) ==> open_spec(b@) == Ok::<Seq<char>, Seq<char>>(text@),
        r matches Ok(b) ==> (base64_decode_spec(b@) matches Some(c) && c.len() == vstd::utf8::encode_utf8(text@).len()
            + 28),
{
    let nonce = match nonce {
        Ok(n) => n,
        Err(e) => return Err(e),
    };
    let pt = utf8_bytes(text);
    if pt.len() as u64 > SEAL_MAX {
        return Err(String::from_str("aead::Error"));
    }
    let key = plugin_key();
    let ct = aes256gcm_encrypt(&key, &nonce, pt.as_slice());
    let mut combined: Vec<u8> = Vec::new();
    let mut i: usize = 0;
    while i < 12
        invariant
            i <= 12,
            combined@ == nonce@.subrange(0, i as int),
        decreases 12 - i,
    {
        combined.push(nonce[i]);
        i = i + 1;
        assert(combined@ =~= nonce@.subrange(0, i as int));
    }
    let mut j: usize = 0;
    while j < ct.len()
        invariant
            j <= ct@.len(),
            combined@ == nonce@ + ct@.subrange(0, j as int),
        decreases ct@.len() - j,
    {
        combined.push(ct[j]);
        j = j + 1;
        assert(combined@ =~= nonce@ + ct@.subrange(0, j as int));
    }
    proof {
        assert(ct@.subrange(0, ct@.len() as int) =~= ct@);
        assert(combined@.subrange(0, 12) =~= nonce@);
        assert(combined@.subrange(12, combined@.len() as int) =~= ct@);
    }
    let b = base64_encode(combined.as_slice());
    assert(combined@ =~= nonce@ + ct@);
    assert(sealed_text(nonce@, text@) == b@);
    Ok(b)
}

/// Seals `text` under the plugin's key with a fresh nonce from the
/// system's random source, as `seal_with_nonce` says of the nonce it got;
/// an error of the random source carries that source's text, of which
/// nothing is stated.
pub fn seal_b64(text: &str) -> (r: Result<String, String>)
    ensures
        r matches Ok(b) ==> open_spec(b@) == Ok::<Seq<char>, Seq<char>>(text@),
        r matches Ok(b) ==> exists|n: Seq<u8>| #[trigger] sealed_text(n, text@) == b@ && n.len() == 12,
        r matches Ok(b) ==> (base64_decode_spec(b@) matches Some(c) && c.len() == vstd::utf8::encode_utf8(text@).len()
            + 28),
        too_long(text@) ==> r is Err,
{
    let nonce = os_random_nonce();
    let ghost n = nonce;
    let r = seal_with_nonce(text, nonce);
    proof {
        if r is Ok {
            let nn = n->Ok_0;
            assert(sealed_text(nn@, text@) == r->Ok_0@);
        }
    }
    r
}

/// Opens the Base64 of nonce and ciphertext.
pub fn open_b64(b64: &str) -> (r: Result<String, String>)
    ensures
        match open_spec(b64@) {
            Ok(t) => r matches Ok(s) && s@ == t,
            Err(e) => r matches Err(m) && m@ == e,
        },
{
    let combined = match base64_decode(b64) {
        Ok(c) => c,
        Err(e) => return Err(e),
    };
    if combined.len() < 12 {
        return Err(String::from_str("payload too short"));
    }
    let mut nonce: Vec<u8> = Vec::new();
    let mut rest: Vec<u8> = Vec::new();
    let mut i: usize = 0;
    while i < combined.len()
        invariant
            i <= combined@.len(),
            combined@.len() >= 12,
            i <= 12 ==> nonce@ == combined@.subrange(0, i as int) && rest@.len() == 0,
            i > 12 ==> nonce@ == combined@.subrange(0, 12) && rest@ == combined@.subrange(12, i as int),
        decreases combined@.len() - i,
    {
        if i < 12 {
            nonce.push(combined[i]);
        } else {
            rest.push(combined[i]);
        }
        i = i + 1;
        assert(i <= 12 ==> nonce@ =~= combined@.subrange(0, i as int));
        assert(i > 12 ==> rest@ =~= combined@.subrange(12, i as int));
    }
    if combined.len() == 12 {
        assert(rest@ =~= combined@.subrange(12, 12));
    }
    let key = plugin_key();
    let pt = match aes256gcm_decrypt(&key, nonce.as_slice(), rest.as_slice()) {
        Some(p) => p,
        None => return Err(String::from_str("aead::Error")),
    };
    utf8_decode(pt.as_slice())
}

/// `v` is `{key: value}`.
pub open spec fn is_single_str(v: JsonValue, key: Seq<char>, value: Seq<char>) -> bool {
    &&& v matches JsonValue::Object(fs)
    &&& fs@.len() == 1
    &&& fs@[0].0@ == key
    &&& fs@[0].1 matches JsonValue::Str(s) && s@ == value
}

/// The plugin's `encrypt`: `{plaintext}` to `{ciphertext}`, the Base64 of
/// nonce and ciphertext.
pub fn encrypt(input: &str) -> (r: Result<String, String>)
    ensures
        match doc_record_str(json_parse_spec(input@), "plaintext"@, 0, 1) {
            None => r matches Err(e) && e@ == "invalid encrypt request"@,
            Some(text) => (r matches Ok(out) ==> exists|v: JsonValue, b: Seq<char>|
                is_single_str(v, "ciphertext"@, b) && out@ == json_text(v) && open_spec(b) == Ok::<Seq<char>, Seq<char>>(text)
                && exists|n: Seq<u8>| #[trigger] sealed_text(n, text) == b && n.len() == 12
                && (base64_decode_spec(b) matches Some(c) && c.len() == vstd::utf8::encode_utf8(text).len() + 28))
                && (too_long(text) ==> r is Err),
        },
{
    let text = match parse_json(input) {
        Some(v) => match get_record_str(&v, "plaintext", 0, 1) {
            Some(t) => t,
            None => return Err(String::from_str("invalid encrypt request")),
        },
        None => return Err(String::from_str("invalid encrypt request")),
    };
    let b = match seal_b64(text.as_str()) {
        Ok(b) => b,
        Err(e) => return Err(e),
    };
    let mut fs: Vec<(String, JsonValue)> = Vec::new();
    fs.push(str_member("ciphertext", b.as_str()));
    let v = JsonValue::Object(fs);
    let out = to_json_string(&v);
    assert(is_single_str(v, "ciphertext"@, b@));
    Ok(out)
}

/// The plugin's `decrypt`: `{ciphertext}` to `{plaintext}`.
pub fn decrypt(input: &str) -> (r: Result<String, String>)
    ensures
        match doc_record_str(json_parse_spec(input@), "ciphertext"@, 0, 1) {
            None => r matches Err(m) && m@ == "invalid decrypt request"@,
            Some(c) => match open_spec(c) {
                Err(e) => r matches Err(m) && m@ == e,
                Ok(text) => r matches Ok(out) && exists|v: JsonValue|
                    is_single_str(v, "plaintext"@, text) && out@ == json_text(v),
            },
        },
{
    let c = match parse_json(input) {
        Some(v) => match get_record_str(&v, "ciphertext", 0, 1) {
            Some(t) => t,
            None => return Err(String::from_str("invalid decrypt request")),
        },
        None => return Err(String::from_str("invalid decrypt request")),
    };
    match open_b64(c.as_str()) {
        Ok(text) => {
            let mut fs: Vec<(String, JsonValue)> = Vec::new();
            fs.push(str_member("plaintext", text.as_str()));
            let v = JsonValue::Object(fs);
            let out = to_json_string(&v);
            assert(is_single_str(v, "plaintext"@, text@));
            Ok(out)
        },
        Err(e) => Err(e),
    }
}

} // verus!
