//! LBRY-shaped stream descriptors, SHA-384 blob hashes and AES-256-CBC
//! content blobs.

use vstd::prelude::*;
use vstd::utf8::*;
use std::path::{Path, PathBuf};
use crate::aescbc::{aes256_cbc_decrypt, decrypt_blob_bytes};
use crate::digest::{blob_hash_of, sha384_hex};
use crate::hexcodec::{hex_decode, hex_decode_spec, hex_lower, HexError};
use crate::text::{ascii_lower_seq, ascii_upper_seq, chars_of, to_ascii_lower, to_lowercase, unicode_lower};

verus! {

/// One content blob of a stream, as listed in its descriptor.
#[derive(Debug)]
pub struct SdBlobEntry {
    /// Hex SHA-384 of the encrypted blob.
    pub blob_hash: String,
    /// Hex of the 16-byte AES-CBC IV of the blob.
    pub iv: String,
    /// Length in bytes of the encrypted blob.
    pub length: u64,
}

/// A stream descriptor: the ordered content blobs of a stream, its file
/// name and its key.
#[derive(Debug)]
pub struct StreamDescriptor {
    pub blobs: Vec<SdBlobEntry>,
    /// Hex-encoded bytes of the file name.
    pub filename: String,
    /// Hex-encoded 32-byte AES stream key.
    pub key: String,
    pub version: u32,
}

/// What a descriptor entry holds.
pub struct SdBlobEntryView {
    pub blob_hash: Seq<char>,
    pub iv: Seq<char>,
    pub length: u64,
}

/// What a stream descriptor holds.
pub struct StreamDescriptorView {
    pub blobs: Seq<SdBlobEntryView>,
    pub filename: Seq<char>,
    pub key: Seq<char>,
    pub version: u32,
}

impl View for SdBlobEntry {
    type V = SdBlobEntryView;

    open spec fn view(&self) -> SdBlobEntryView {
        SdBlobEntryView { blob_hash: self.blob_hash@, iv: self.iv@, length: self.length }
    }
}

impl View for StreamDescriptor {
    type V = StreamDescriptorView;

    open spec fn view(&self) -> StreamDescriptorView {
        StreamDescriptorView {
            blobs: self.blobs@.map_values(|e: SdBlobEntry| e@),
            filename: self.filename@,
            key: self.key@,
            version: self.version,
        }
    }
}


/// Max plaintext per LBRY content blob (2 MiB - 1).
pub const MAX_PLAINTEXT_BLOB: usize = 2097151;

#[verifier::external_type_specification]
#[verifier::external_body]
pub struct ExPath(Path);

#[verifier::external_type_specification]
#[verifier::external_body]
pub struct ExPathBuf(PathBuf);

/// `data` hashes to `expected`, compared without regard to ASCII case.
pub open spec fn hash_matches(data: Seq<u8>, expected: Seq<char>) -> bool {
    ascii_lower_seq(expected) == blob_hash_of(data)
}

/// A blob whose SHA-384 is not the expected one.
#[derive(Debug)]
pub struct HashMismatch {
    /// The expected hash, lowercased.
    pub expected: String,
    /// The lowercase hex SHA-384 of the bytes received.
    pub got: String,
}

/// Checks that `data` has the SHA-384 named by `expected_hex`, in either case.
pub fn verify_blob_hash(data: &[u8], expected_hex: &str) -> (res: Result<(), HashMismatch>)
    ensures
        res is Ok <==> hash_matches(data@, expected_hex@),
        res matches Err(e) ==> e.expected@ == unicode_lower(expected_hex@) && e.got@
            == blob_hash_of(data@),
        res matches Err(e) ==> (is_ascii_chars(expected_hex@) ==> e.expected@ == ascii_lower_seq(
            expected_hex@,
        )),
{
    let got = sha384_hex(data);
    if eq_ignore_ascii_case(got.as_str(), expected_hex) {
        proof {
            crate::hexcodec::lemma_hex_text(crate::digest::sha384(data@));
        }
        Ok(())
    } else {
        proof {
            crate::hexcodec::lemma_hex_text(crate::digest::sha384(data@));
        }
        Err(HashMismatch { expected: to_lowercase(expected_hex), got })
    }
}

/// Whether two texts are equal up to ASCII case (`str::eq_ignore_ascii_case`).
pub fn eq_ignore_ascii_case(a: &str, b: &str) -> (res: bool)
    ensures
        res == (ascii_lower_seq(a@) == ascii_lower_seq(b@)),
{
    let xs = chars_of(a);
    let ys = chars_of(b);
    if xs.len() != ys.len() {
        assert(ascii_lower_seq(a@).len() != ascii_lower_seq(b@).len());
        return false;
    }
    let mut i: usize = 0;
    while i < xs.len()
        invariant
            xs@ == a@,
            ys@ == b@,
            xs@.len() == ys@.len(),
            i <= xs@.len(),
            forall|j: int| 0 <= j < i ==> ascii_lower_seq(a@)[j] == ascii_lower_seq(b@)[j],
        decreases xs@.len() - i,
    {
        if to_ascii_lower(xs[i]) != to_ascii_lower(ys[i]) {
            assert(ascii_lower_seq(a@)[i as int] != ascii_lower_seq(b@)[i as int]);
            return false;
        }
        i = i + 1;
    }
    assert(ascii_lower_seq(a@) =~= ascii_lower_seq(b@));
    true
}

/// A file packed into a blob directory: its descriptor hash, its stream key
/// and name, and where the blobs were written.
pub struct PackedStream {
    pub sd_hash: String,
    pub stream_key_hex: String,
    pub filename: String,
    pub blob_dir: PathBuf,
}

/// The lowercase hex SHA-384 of a blob verifies against the blob, and so
/// does any spelling of it that differs only in ASCII case.
pub proof fn lemma_own_hash_matches(data: Seq<u8>, expected: Seq<char>)
    requires
        ascii_lower_seq(expected) == ascii_lower_seq(blob_hash_of(data)),
    ensures
        hash_matches(data, blob_hash_of(data)),
        hash_matches(data, expected),
{
    crate::hexcodec::lemma_hex_text(crate::digest::sha384(data));
}

/// The path `dir` with the relative path `name` adjoined (`Path::join`).
pub uninterp spec fn path_joined(dir: &Path, name: Seq<char>) -> PathBuf;

/// Calls `Path::join`: `dir` with `name` adjoined. The joined path is a
/// function of `dir` and the text of `name` alone; a path has no plain view,
/// so its components are not spelled out here.
#[verifier::external_body]
fn path_join(dir: &Path, name: &str) -> (res: PathBuf)
    ensures
        res == path_joined(dir, name@),
{
    dir.join(name)
}

/// The name under which a blob is stored: its hash, lowercased.
pub fn blob_file_name(hash_hex: &str) -> (res: String)
    ensures
        res@ == unicode_lower(hash_hex@),
        is_ascii_chars(hash_hex@) ==> res@ == ascii_lower_seq(hash_hex@),
{
    to_lowercase(hash_hex)
}

/// The path of a blob file in a blob directory: `dir` joined with the
/// lowercased hash.
pub fn blob_path(dir: &Path, hash_hex: &str) -> (res: PathBuf)
    ensures
        res == path_joined(dir, unicode_lower(hash_hex@)),
        is_ascii_chars(hash_hex@) ==> res == path_joined(dir, ascii_lower_seq(hash_hex@)),
{
    let name = blob_file_name(hash_hex);
    path_join(dir, name.as_str())
}

/// For an ASCII hash, the blob path does not depend on the hash's case: the
/// upper-cased and the lower-cased hash are ASCII too and name the same path.
pub proof fn lemma_blob_path_case(dir: &Path, hash_hex: Seq<char>)
    requires
        is_ascii_chars(hash_hex),
    ensures
        is_ascii_chars(ascii_upper_seq(hash_hex)),
        is_ascii_chars(ascii_lower_seq(hash_hex)),
        path_joined(dir, ascii_lower_seq(ascii_upper_seq(hash_hex))) == path_joined(
            dir,
            ascii_lower_seq(hash_hex),
        ),
        path_joined(dir, ascii_lower_seq(ascii_lower_seq(hash_hex))) == path_joined(
            dir,
            ascii_lower_seq(hash_hex),
        ),
{
    crate::text::lemma_ascii_upper(hash_hex);
    assert(ascii_lower_seq(ascii_lower_seq(hash_hex)) =~= ascii_lower_seq(hash_hex));
}

/// Why a stream descriptor is refused.
#[derive(Debug, Clone, Copy, PartialEq, Eq)]
pub enum SdError {
    /// Only version 1 is understood.
    UnsupportedVersion(u32),
    /// A descriptor must list at least one content blob.
    NoContentBlobs,
}

/// Whether a parsed descriptor is acceptable: version 1, at least one blob.
pub open spec fn sd_check(sd: StreamDescriptorView) -> Result<(), SdError> {
    if sd.version != 1 {
        Err(SdError::UnsupportedVersion(sd.version))
    } else if sd.blobs.len() == 0 {
        Err(SdError::NoContentBlobs)
    } else {
        Ok(())
    }
}

/// Checks a parsed stream descriptor: it must be version 1 and list at least
/// one content blob.
pub fn validate_sd(sd: &StreamDescriptor) -> (res: Result<(), SdError>)
    ensures
        res == sd_check(sd@),
{
    if sd.version != 1 {
        Err(SdError::UnsupportedVersion(sd.version))
    } else if sd.blobs.len() == 0 {
        Err(SdError::NoContentBlobs)
    } else {
        Ok(())
    }
}

/// Why a content blob could not be decrypted.
#[derive(Debug, Clone, Copy, PartialEq, Eq)]
pub enum DecryptError {
    /// The stream key is not hexadecimal.
    KeyHex(HexError),
    /// The IV is not hexadecimal.
    IvHex(HexError),
    /// The stream key is not 32 bytes; the length found.
    KeyLength(usize),
    /// The IV is not 16 bytes; the length found.
    IvLength(usize),
    /// The ciphertext length or its padding is malformed.
    Cipher,
}

/// Decryption of a content blob under a hex stream key and a hex IV.
pub open spec fn decrypt_spec(cipher: Seq<u8>, key_hex: Seq<char>, iv_hex: Seq<char>) -> Result<
    Seq<u8>,
    DecryptError,
> {
    match key_and_iv(key_hex, iv_hex) {
        Err(e) => Err(e),
        Ok((key, iv)) => match aes256_cbc_decrypt(key, iv, cipher) {
            Some(p) => Ok(p),
            None => Err(DecryptError::Cipher),
        },
    }
}

/// The stream key and IV spelled by hex texts: the key text is decoded
/// first, then the IV text; the key must be 32 bytes and the IV 16.
pub open spec fn key_and_iv(key_hex: Seq<char>, iv_hex: Seq<char>) -> Result<
    (Seq<u8>, Seq<u8>),
    DecryptError,
> {
    match hex_decode_spec(encode_utf8(key_hex)) {
        Err(e) => Err(DecryptError::KeyHex(e)),
        Ok(key) => match hex_decode_spec(encode_utf8(iv_hex)) {
            Err(e) => Err(DecryptError::IvHex(e)),
            Ok(iv) => if key.len() != 32 {
                Err(DecryptError::KeyLength(key.len() as usize))
            } else if iv.len() != 16 {
                Err(DecryptError::IvLength(iv.len() as usize))
            } else {
                Ok((key, iv))
            },
        },
    }
}

/// A content blob encrypted under `key` and `iv` decrypts to its plaintext
/// when the key and IV are given as lowercase hex, and equally when both hex
/// texts are given in upper case.
pub proof fn lemma_decrypt_of_encrypted(cipher: Seq<u8>, key: Seq<u8>, iv: Seq<u8>, plain: Seq<u8>)
    requires
        key.len() == 32,
        iv.len() == 16,
        aes256_cbc_decrypt(key, iv, cipher) == Some(plain),
    ensures
        decrypt_spec(cipher, hex_lower(key), hex_lower(iv)) == Ok::<Seq<u8>, DecryptError>(plain),
        decrypt_spec(cipher, ascii_upper_seq(hex_lower(key)), ascii_upper_seq(hex_lower(iv)))
            == Ok::<Seq<u8>, DecryptError>(plain),
{
    crate::hexcodec::lemma_hex_text(key);
    crate::hexcodec::lemma_hex_text(iv);
    crate::hexcodec::lemma_hex_upper(key);
    crate::hexcodec::lemma_hex_upper(iv);
}

/// Decryption succeeds exactly when the key text is hex of 32 bytes, the IV
/// text is hex of 16 bytes, and AES-256-CBC decryption with PKCS#7 unpadding
/// of the ciphertext under them succeeds; its plaintext is then the result.
/// Any other case is an error.
pub proof fn lemma_decrypt_success(cipher: Seq<u8>, key_hex: Seq<char>, iv_hex: Seq<char>)
    ensures
        decrypt_spec(cipher, key_hex, iv_hex) is Ok <==> (hex_decode_spec(encode_utf8(key_hex)) matches Ok(k)
            && (hex_decode_spec(encode_utf8(iv_hex)) matches Ok(v) && k.len() == 32 && v.len() == 16
            && aes256_cbc_decrypt(k, v, cipher) is Some)),
        decrypt_spec(cipher, key_hex, iv_hex) matches Ok(p) ==> aes256_cbc_decrypt(
            hex_decode_spec(encode_utf8(key_hex))->Ok_0,
            hex_decode_spec(encode_utf8(iv_hex))->Ok_0,
            cipher,
        ) == Some(p),
{
}

/// A byte-vector result seen through the view of its bytes.
pub open spec fn bytes_result<E>(r: Result<Vec<u8>, E>) -> Result<Seq<u8>, E> {
    match r {
        Ok(v) => Ok(v@),
        Err(e) => Err(e),
    }
}

/// Decrypts a content blob (AES-256-CBC, PKCS#7) with a hex stream key of 32
/// bytes and a hex IV of 16 bytes.
pub fn decrypt_content_blob(ciphertext: &[u8], key_hex: &str, iv_hex: &str) -> (res: Result<
    Vec<u8>,
    DecryptError,
>)
    ensures
        bytes_result(res) == decrypt_spec(ciphertext@, key_hex@, iv_hex@),
        key_and_iv(key_hex@, iv_hex@) is Ok && (ciphertext@.len() == 0 || ciphertext@.len() % 16
            != 0) ==> res == Err::<Vec<u8>, DecryptError>(DecryptError::Cipher),
        res matches Ok(p) ==> (hex_decode_spec(encode_utf8(key_hex@)) matches Ok(k) && (
        hex_decode_spec(encode_utf8(iv_hex@)) matches Ok(v) && k.len() == 32 && v.len() == 16
            && aes256_cbc_decrypt(k, v, ciphertext@) == Some(p@))),
{
    let key = match hex_decode(key_hex.as_bytes()) {
        Ok(k) => k,
        Err(e) => {
            return Err(DecryptError::KeyHex(e));
        },
    };
    let iv = match hex_decode(iv_hex.as_bytes()) {
        Ok(v) => v,
        Err(e) => {
            return Err(DecryptError::IvHex(e));
        },
    };
    if key.len() != 32 {
        return Err(DecryptError::KeyLength(key.len()));
    }
    if iv.len() != 16 {
        return Err(DecryptError::IvLength(iv.len()));
    }
    match decrypt_blob_bytes(ciphertext, key.as_slice(), iv.as_slice()) {
        Some(p) => Ok(p),
        None => Err(DecryptError::Cipher),
    }
}

} // verus!
