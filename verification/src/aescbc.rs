//! AES-256-CBC with PKCS#7 padding, the content-blob cipher.

use vstd::prelude::*;
use cbc::cipher::block_padding::Pkcs7;
use cbc::cipher::{BlockDecryptMut, BlockEncryptMut, KeyIvInit};

verus! {

/// AES-256-CBC encryption with PKCS#7 padding of `plain` under `key` and `iv`.
pub uninterp spec fn aes256_cbc_encrypt(key: Seq<u8>, iv: Seq<u8>, plain: Seq<u8>) -> Seq<u8>;

/// AES-256-CBC decryption of `cipher` under `key` and `iv`, followed by removal
/// of PKCS#7 padding; `None` when the length or the padding is malformed.
pub uninterp spec fn aes256_cbc_decrypt(key: Seq<u8>, iv: Seq<u8>, cipher: Seq<u8>) -> Option<
    Seq<u8>,
>;

/// Calls `encrypt_padded_mut::<Pkcs7>` of `cbc::Encryptor<aes::Aes256>` on a
/// buffer whose first `msg_len` bytes are the plaintext and which has sixteen
/// spare bytes, enough for PKCS#7, which always appends one to sixteen bytes.
/// The ciphertext is the plaintext length rounded up to the next multiple of
/// sixteen, and decrypting it under the same key and IV gives the plaintext back.
#[verifier::external_body]
fn encrypt_in_place(buf: Vec<u8>, msg_len: usize, key: &[u8; 32], iv: &[u8; 16]) -> (res: Vec<u8>)
    requires
        buf@.len() == msg_len + 16,
    ensures
        res@ == aes256_cbc_encrypt(key@, iv@, buf@.take(msg_len as int)),
        res@.len() == (msg_len / 16 + 1) * 16,
        aes256_cbc_decrypt(key@, iv@, res@) == Some(buf@.take(msg_len as int)),
{
    let mut buf = buf;
    let enc = cbc::Encryptor::<aes::Aes256>::new(key.into(), iv.into());
    match enc.encrypt_padded_mut::<Pkcs7>(&mut buf, msg_len) {
        Ok(ct) => ct.to_vec(),
        Err(_) => Vec::new(),
    }
}

/// Encrypts one content blob under the stream key and the blob's IV.
pub(crate) fn encrypt_content_blob(plain: &[u8], key: &[u8; 32], iv: &[u8; 16]) -> (res: Vec<u8>)
    requires
        plain@.len() + 16 <= usize::MAX,
    ensures
        res@ == aes256_cbc_encrypt(key@, iv@, plain@),
        res@.len() == (plain@.len() / 16 + 1) * 16,
        aes256_cbc_decrypt(key@, iv@, res@) == Some(plain@),
{
    let mut buf: Vec<u8> = Vec::new();
    buf.extend_from_slice(plain);
    let mut k: usize = 0;
    while k < 16
        invariant
            k <= 16,
            buf@.len() == plain@.len() + k,
            buf@.take(plain@.len() as int) == plain@,
        decreases 16 - k,
    {
        buf.push(0u8);
        k = k + 1;
    }
    encrypt_in_place(buf, plain.len(), key, iv)
}

/// Calls `decrypt_padded_mut::<Pkcs7>` of `cbc::Decryptor<aes::Aes256>` built by
/// `new_from_slices` from a 32-byte key and a 16-byte IV. A ciphertext that is
/// empty or whose length is not a multiple of sixteen is refused.
#[verifier::external_body]
pub(crate) fn decrypt_blob_bytes(cipher: &[u8], key: &[u8], iv: &[u8]) -> (res: Option<Vec<u8>>)
    requires
        key@.len() == 32,
        iv@.len() == 16,
    ensures
        match res {
            Some(p) => aes256_cbc_decrypt(key@, iv@, cipher@) == Some(p@),
            None => aes256_cbc_decrypt(key@, iv@, cipher@) is None,
        },
        cipher@.len() == 0 || cipher@.len() % 16 != 0 ==> res is None,
{
    match cbc::Decryptor::<aes::Aes256>::new_from_slices(key, iv) {
        Ok(dec) => {
            let mut buf = cipher.to_vec();
            match dec.decrypt_padded_mut::<Pkcs7>(&mut buf) {
                Ok(plain) => Some(plain.to_vec()),
                Err(_) => None,
            }
        },
        Err(_) => None,
    }
}

} // verus!
