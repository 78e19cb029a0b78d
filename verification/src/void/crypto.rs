use vstd::prelude::*;
use crate::aead::{aes256gcm_decrypt, aes256gcm_encrypt, aes_gcm_open, aes_gcm_seal, random_nonce, SEAL_MAX};

verus! {

/// Longest plaintext a `Crypto` must seal.
pub const MAX_PLAINTEXT: u64 = SEAL_MAX;

/// How the messenger seals what it sends.
pub trait Crypto {
    /// What `decrypt` gives for `sealed`.
    spec fn opens(&self, sealed: Seq<u8>) -> Option<Seq<u8>>;

    /// Seals `data`; opening the result gives `data` back.
    fn encrypt(&self, data: &[u8]) -> (sealed: Vec<u8>)
        requires
            data@.len() <= MAX_PLAINTEXT,
        ensures
            self.opens(sealed@) == Some(data@),
    ;

    /// Opens `data`, `None` when it was not sealed with this key.
    fn decrypt(&self, data: &[u8]) -> (plain: Option<Vec<u8>>)
        ensures
            plain is Some <==> self.opens(data@) is Some,
            plain matches Some(p) ==> self.opens(data@) == Some(p@),
    ;
}

/// AES-256-GCM with a random 12-byte nonce written before the ciphertext.
pub struct AesCrypto {
    key: [u8; 32],
}

impl AesCrypto {
    pub closed spec fn key_view(&self) -> Seq<u8> {
        self.key@
    }

    /// A sealer for this key.
    pub fn new(key: &[u8; 32]) -> (c: Self)
        ensures
            c.key_view() == key@,
    {
        AesCrypto { key: *key }
    }
}

/// What opening a sealed message under `key` gives: nothing for fewer than
/// 13 bytes, else the AES-GCM opening of the rest under the first 12 bytes.
pub open spec fn aes_opens(key: Seq<u8>, sealed: Seq<u8>) -> Option<Seq<u8>> {
    if sealed.len() < 13 {
        None
    } else {
        aes_gcm_open(key, sealed.subrange(0, 12), sealed.subrange(12, sealed.len() as int))
    }
}

impl Crypto for AesCrypto {
    open spec fn opens(&self, sealed: Seq<u8>) -> Option<Seq<u8>> {
        aes_opens(self.key_view(), sealed)
    }

    fn encrypt(&self, data: &[u8]) -> (sealed: Vec<u8>)
        ensures
            sealed@.len() == data@.len() + 28,
            exists|n: Seq<u8>| n.len() == 12 && sealed@ == n + #[trigger] aes_gcm_seal(self.key_view(), n, data@),
    {
        let nonce = random_nonce();
        let ct = aes256gcm_encrypt(&self.key, &nonce, data);
        let mut out: Vec<u8> = Vec::new();
        let mut i: usize = 0;
        while i < 12
            invariant
                i <= 12,
                out@ == nonce@.subrange(0, i as int),
            decreases 12 - i,
        {
            out.push(nonce[i]);
            i = i + 1;
            assert(out@ =~= nonce@.subrange(0, i as int));
        }
        let mut j: usize = 0;
        while j < ct.len()
            invariant
                j <= ct@.len(),
                out@ == nonce@ + ct@.subrange(0, j as int),
            decreases ct@.len() - j,
        {
            out.push(ct[j]);
            j = j + 1;
            assert(out@ =~= nonce@ + ct@.subrange(0, j as int));
        }
        proof {
            assert(ct@.subrange(0, ct@.len() as int) =~= ct@);
            assert(out@.subrange(0, 12) =~= nonce@);
            assert(out@.subrange(12, out@.len() as int) =~= ct@);
            assert(out@ =~= nonce@ + aes_gcm_seal(self.key_view(), nonce@, data@));
        }
        out
    }

    fn decrypt(&self, data: &[u8]) -> (plain: Option<Vec<u8>>) {
        if data.len() < 13 {
            return None;
        }
        let mut nonce: Vec<u8> = Vec::new();
        let mut rest: Vec<u8> = Vec::new();
        let mut i: usize = 0;
        while i < data.len()
            invariant
                i <= data@.len(),
                data@.len() >= 13,
                i <= 12 ==> nonce@ == data@.subrange(0, i as int) && rest@.len() == 0,
                i > 12 ==> nonce@ == data@.subrange(0, 12) && rest@ == data@.subrange(12, i as int),
            decreases data@.len() - i,
        {
            if i < 12 {
                nonce.push(data[i]);
            } else {
                rest.push(data[i]);
            }
            i = i + 1;
            assert(i <= 12 ==> nonce@ =~= data@.subrange(0, i as int));
            assert(i > 12 ==> rest@ =~= data@.subrange(12, i as int));
        }
        aes256gcm_decrypt(&self.key, nonce.as_slice(), rest.as_slice())
    }
}

} // verus!
