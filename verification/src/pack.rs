//! Packing a file's bytes into an LBRY-shaped stream: content blobs of at
//! most `MAX_PLAINTEXT_BLOB` plaintext bytes, each AES-256-CBC encrypted
//! under one stream key with its own IV and named by the SHA-384 of its
//! ciphertext, plus the stream descriptor that lists them.

use vstd::prelude::*;
use vstd::utf8::*;
use crate::aescbc::{aes256_cbc_decrypt, aes256_cbc_encrypt, encrypt_content_blob};
use crate::digest::{blob_hash_of, sha384_hex};
use crate::hexcodec::{hex_decode_spec, hex_encode, hex_lower, lemma_hex_text, HexError};
use crate::lbry_blob::{
    decrypt_spec, hash_matches, sd_check, SdBlobEntry, SdError, SdBlobEntryView, StreamDescriptor,
    StreamDescriptorView, MAX_PLAINTEXT_BLOB,
};
use crate::sd_json::{encode_sd_json, sd_json};

verus! {

/// The number of content blobs for a plaintext of `len` bytes.
pub open spec fn chunk_count(len: nat) -> nat {
    if len == 0 {
        0
    } else {
        ((len - 1) as nat / (MAX_PLAINTEXT_BLOB as nat) + 1) as nat
    }
}

/// The plaintext of content blob `i`: the `i`-th run of `MAX_PLAINTEXT_BLOB`
/// bytes, the last one possibly shorter.
pub open spec fn chunk_of(plain: Seq<u8>, i: int) -> Seq<u8> {
    let start = i * MAX_PLAINTEXT_BLOB;
    let end = if start + MAX_PLAINTEXT_BLOB <= plain.len() {
        start + MAX_PLAINTEXT_BLOB
    } else {
        plain.len() as int
    };
    plain.subrange(start, end)
}

/// The ciphertext of content blob `i`.
pub open spec fn pack_ciphertext(plain: Seq<u8>, key: Seq<u8>, ivs: Seq<Seq<u8>>, i: int) -> Seq<
    u8,
> {
    aes256_cbc_encrypt(key, ivs[i], chunk_of(plain, i))
}

/// The descriptor entry of content blob `i`.
pub open spec fn pack_entry(plain: Seq<u8>, key: Seq<u8>, ivs: Seq<Seq<u8>>, i: int) -> SdBlobEntryView {
    let ct = pack_ciphertext(plain, key, ivs, i);
    SdBlobEntryView { blob_hash: blob_hash_of(ct), iv: hex_lower(ivs[i]), length: ct.len() as u64 }
}

/// The stream descriptor of a packed plaintext.
pub open spec fn pack_sd(plain: Seq<u8>, filename: Seq<char>, key: Seq<u8>, ivs: Seq<Seq<u8>>) -> StreamDescriptorView {
    StreamDescriptorView {
        blobs: Seq::new(chunk_count(plain.len()), |i: int| pack_entry(plain, key, ivs, i)),
        filename: hex_lower(encode_utf8(filename)),
        key: hex_lower(key),
        version: 1,
    }
}

/// `raw` is a content blob that checks against `entry` and decrypts, under the
/// hex stream key `key_hex`, to `plain`.
pub open spec fn opens_to(raw: Seq<u8>, entry: SdBlobEntryView, key_hex: Seq<char>, plain: Seq<u8>) -> bool {
    &&& hash_matches(raw, entry.blob_hash)
    &&& decrypt_spec(raw, key_hex, entry.iv) == Ok::<Seq<u8>, crate::lbry_blob::DecryptError>(plain)
}

/// One encrypted content blob, ready to be stored under its hash.
pub struct ContentBlob {
    /// Lowercase hex SHA-384 of the ciphertext.
    pub hash: String,
    pub iv: [u8; 16],
    pub ciphertext: Vec<u8>,
}

/// A packed stream: its content blobs, its descriptor and the descriptor's
/// bytes and hash.
pub struct PackedBlobs {
    pub key: [u8; 32],
    /// Lowercase hex of the stream key.
    pub key_hex: String,
    /// The name of the packed file.
    pub filename: String,
    pub blobs: Vec<ContentBlob>,
    pub sd: StreamDescriptor,
    /// The JSON bytes of the descriptor, stored as the descriptor blob.
    pub sd_bytes: Vec<u8>,
    /// Lowercase hex SHA-384 of `sd_bytes`.
    pub sd_hash: String,
}

/// Why a plaintext cannot be packed.
#[derive(Debug, Clone, Copy, PartialEq, Eq)]
pub enum PackError {
    /// A stream needs at least one byte.
    EmptyInput,
}

/// `p` is the packing of `plain`, named `filename`, under `key`, with IV
/// `ivs[i]` for content blob `i`.
pub open spec fn packs(p: PackedBlobs, plain: Seq<u8>, filename: Seq<char>, key: Seq<u8>, ivs: Seq<Seq<u8>>) -> bool {
    let n = chunk_count(plain.len());
    &&& p.key@ == key
    &&& p.key_hex@ == hex_lower(key)
    &&& p.filename@ == filename
    &&& p.blobs@.len() == n
    &&& forall|i: int|
        0 <= i < n ==> {
            &&& (#[trigger] p.blobs@[i]).iv@ == ivs[i]
            &&& p.blobs@[i].ciphertext@ == pack_ciphertext(plain, key, ivs, i)
            &&& p.blobs@[i].hash@ == blob_hash_of(p.blobs@[i].ciphertext@)
            &&& p.blobs@[i].ciphertext@.len() == (chunk_of(plain, i).len() / 16 + 1) * 16
        }
    &&& p.sd@ == pack_sd(plain, filename, key, ivs)
    &&& p.sd_bytes@ == encode_utf8(sd_json(p.sd@))
    &&& p.sd_hash@ == blob_hash_of(p.sd_bytes@)
}

} // verus!

verus! {

/// Packs `plain`, named `filename`, under stream key `key`, using `ivs[i]` as
/// the IV of content blob `i`. Every content blob then checks against its
/// descriptor entry and decrypts to its run of the plaintext.
pub fn pack_stream_with(plain: &[u8], filename: &str, key: [u8; 32], ivs: &Vec<[u8; 16]>) -> (res:
    Result<PackedBlobs, PackError>)
    requires
        ivs@.len() == chunk_count(plain@.len()),
    ensures
        res is Err <==> plain@.len() == 0,
        res matches Ok(p) ==> packs(p, plain@, filename@, key@, ivs@.map_values(|v: [u8; 16]| v@)),
        res matches Ok(p) ==> hex_decode_spec(encode_utf8(p.sd@.filename)) == Ok::<
            Seq<u8>,
            HexError,
        >(encode_utf8(filename@)),
        res matches Ok(p) ==> sd_check(p.sd@) == Ok::<(), SdError>(()) && hash_matches(
            p.sd_bytes@,
            p.sd_hash@,
        ),
        res matches Ok(p) ==> forall|i: int|
            0 <= i < chunk_count(plain@.len()) ==> opens_to(
                #[trigger] p.blobs@[i].ciphertext@,
                p.sd@.blobs[i],
                p.sd@.key,
                chunk_of(plain@, i),
            ),
{
    if plain.len() == 0 {
        return Err(PackError::EmptyInput);
    }
    let ghost ivv = ivs@.map_values(|v: [u8; 16]| v@);
    let ghost n = chunk_count(plain@.len());
    let key_hex = hex_encode(&key);
    let mut blobs: Vec<ContentBlob> = Vec::new();
    let mut entries: Vec<SdBlobEntry> = Vec::new();
    let mut offset: usize = 0;
    let mut i: usize = 0;
    while offset < plain.len()
        invariant
            ivs@.len() == n,
            ivv == ivs@.map_values(|v: [u8; 16]| v@),
            n == chunk_count(plain@.len()),
            plain@.len() > 0,
            i <= n,
            i < n ==> offset == i * MAX_PLAINTEXT_BLOB && offset < plain@.len(),
            i == n ==> offset == plain@.len(),
            blobs@.len() == i,
            entries@.len() == i,
            forall|j: int| 0 <= j < i ==> (#[trigger] entries@[j])@ == pack_entry(plain@, key@, ivv, j),
            forall|j: int|
                0 <= j < i ==> {
                    &&& (#[trigger] blobs@[j]).iv@ == ivv[j]
                    &&& blobs@[j].ciphertext@ == pack_ciphertext(plain@, key@, ivv, j)
                    &&& blobs@[j].hash@ == blob_hash_of(blobs@[j].ciphertext@)
                    &&& blobs@[j].ciphertext@.len() == (chunk_of(plain@, j).len() / 16 + 1) * 16
                    &&& aes256_cbc_decrypt(key@, ivv[j], blobs@[j].ciphertext@) == Some(
                        chunk_of(plain@, j),
                    )
                },
        decreases plain@.len() - offset,
    {
        let end: usize = if plain.len() - offset > MAX_PLAINTEXT_BLOB {
            offset + MAX_PLAINTEXT_BLOB
        } else {
            plain.len()
        };
        let chunk = &plain[offset..end];
        assert(chunk@ == chunk_of(plain@, i as int));
        let iv: [u8; 16] = ivs[i];
        assert(iv@ == ivv[i as int]);
        let ciphertext = encrypt_content_blob(chunk, &key, &iv);
        let hash = sha384_hex(ciphertext.as_slice());
        let iv_hex = hex_encode(&iv);
        let length: u64 = ciphertext.len() as u64;
        entries.push(SdBlobEntry { blob_hash: hash.clone(), iv: iv_hex, length });
        blobs.push(ContentBlob { hash, iv, ciphertext });
        offset = end;
        i = i + 1;
    }
    let filename_hex = hex_encode(filename.as_bytes());
    let sd = StreamDescriptor { blobs: entries, filename: filename_hex, key: key_hex.clone(), version: 1 };
    assert forall|j: int| 0 <= j < n implies #[trigger] sd@.blobs[j] == pack_sd(
        plain@,
        filename@,
        key@,
        ivv,
    ).blobs[j] by {
        assert(sd@.blobs[j] == sd.blobs@[j]@);
    }
    assert(sd@.blobs =~= pack_sd(plain@, filename@, key@, ivv).blobs);
    let sd_bytes = encode_sd_json(&sd);
    let sd_hash = sha384_hex(sd_bytes.as_slice());
    let ghost sdv = sd@;
    let p = PackedBlobs {
        key,
        key_hex,
        filename: String::from_str(filename),
        blobs,
        sd,
        sd_bytes,
        sd_hash,
    };
    proof {
        lemma_hex_text(encode_utf8(filename@));
        lemma_hex_text(key@);
        lemma_hex_text(crate::digest::sha384(p.sd_bytes@));
        assert forall|j: int| 0 <= j < n implies opens_to(
            #[trigger] p.blobs@[j].ciphertext@,
            p.sd@.blobs[j],
            p.sd@.key,
            chunk_of(plain@, j),
        ) by {
            lemma_hex_text(p.blobs@[j].ciphertext@);
            lemma_hex_text(ivv[j]);
            lemma_hex_text(crate::digest::sha384(p.blobs@[j].ciphertext@));
        }
    }
    Ok(p)
}

} // verus!

verus! {

/// Calls `rand::thread_rng().fill_bytes` on a 32-byte buffer. The bytes are
/// random, so nothing is promised of them.
#[verifier::external_body]
fn random_key() -> [u8; 32] {
    let mut k = [0u8; 32];
    rand::RngCore::fill_bytes(&mut rand::thread_rng(), &mut k);
    k
}

/// Calls `rand::thread_rng().fill_bytes` on a 16-byte buffer. The bytes are
/// random, so nothing is promised of them.
#[verifier::external_body]
fn random_iv() -> [u8; 16] {
    let mut v = [0u8; 16];
    rand::RngCore::fill_bytes(&mut rand::thread_rng(), &mut v);
    v
}

/// The number of content blobs for a plaintext of `len` bytes.
pub fn blob_count(len: usize) -> (res: usize)
    ensures
        res == chunk_count(len as nat),
{
    if len == 0 {
        0
    } else {
        (len - 1) / MAX_PLAINTEXT_BLOB + 1
    }
}

/// Packs `plain`, named `filename`, under a fresh random stream key with a
/// fresh random IV per content blob: whatever the random bytes, the result is
/// the packing under the key and IVs it records, and every content blob checks
/// against its entry and decrypts to its run of the plaintext.
pub fn pack_stream(plain: &[u8], filename: &str) -> (res: Result<PackedBlobs, PackError>)
    ensures
        res is Err <==> plain@.len() == 0,
        res matches Ok(p) ==> packs(
            p,
            plain@,
            filename@,
            p.key@,
            p.blobs@.map_values(|b: ContentBlob| b.iv@),
        ),
        res matches Ok(p) ==> hex_decode_spec(encode_utf8(p.sd@.filename)) == Ok::<
            Seq<u8>,
            HexError,
        >(encode_utf8(filename@)),
        res matches Ok(p) ==> sd_check(p.sd@) == Ok::<(), SdError>(()) && hash_matches(
            p.sd_bytes@,
            p.sd_hash@,
        ),
        res matches Ok(p) ==> forall|i: int|
            0 <= i < chunk_count(plain@.len()) ==> opens_to(
                #[trigger] p.blobs@[i].ciphertext@,
                p.sd@.blobs[i],
                p.sd@.key,
                chunk_of(plain@, i),
            ),
{
    if plain.len() == 0 {
        return Err(PackError::EmptyInput);
    }
    let key = random_key();
    let n = blob_count(plain.len());
    let mut ivs: Vec<[u8; 16]> = Vec::new();
    while ivs.len() < n
        invariant
            ivs@.len() <= n,
        decreases n - ivs@.len(),
    {
        ivs.push(random_iv());
    }
    let res = pack_stream_with(plain, filename, key, &ivs);
    match res {
        Ok(p) => {
            proof {
                lemma_hex_text(encode_utf8(filename@));
            }
            assert(p.blobs@.map_values(|b: ContentBlob| b.iv@) =~= ivs@.map_values(
                |v: [u8; 16]| v@,
            ));
            Ok(p)
        },
        Err(e) => Err(e),
    }
}

} // verus!

verus! {

/// The plaintexts of the first `k` content blobs, concatenated in order.
pub open spec fn chunks_upto(plain: Seq<u8>, k: nat) -> Seq<u8>
    decreases k,
{
    if k == 0 {
        Seq::empty()
    } else {
        chunks_upto(plain, (k - 1) as nat) + chunk_of(plain, k - 1)
    }
}

/// The runs of a plaintext split into content blobs are non-empty, at most
/// `MAX_PLAINTEXT_BLOB` bytes, all of that size but the last, and together,
/// in order, they are the whole plaintext.
pub proof fn lemma_chunks_cover(plain: Seq<u8>)
    ensures
        forall|i: int|
            0 <= i < chunk_count(plain.len()) ==> 0 < (#[trigger] chunk_of(plain, i)).len()
                <= MAX_PLAINTEXT_BLOB,
        forall|i: int|
            0 <= i < chunk_count(plain.len()) - 1 ==> (#[trigger] chunk_of(plain, i)).len()
                == MAX_PLAINTEXT_BLOB,
        chunks_upto(plain, chunk_count(plain.len())) == plain,
{
    let n = chunk_count(plain.len());
    assert forall|i: int| 0 <= i < n implies 0 < (#[trigger] chunk_of(plain, i)).len()
        <= MAX_PLAINTEXT_BLOB by {
        assert(i * MAX_PLAINTEXT_BLOB < plain.len());
    }
    assert forall|i: int| 0 <= i < n - 1 implies (#[trigger] chunk_of(plain, i)).len()
        == MAX_PLAINTEXT_BLOB by {
        assert((i + 1) * MAX_PLAINTEXT_BLOB < plain.len());
    }
    lemma_chunks_prefix(plain, n);
    assert(plain.subrange(0, plain.len() as int) =~= plain);
}

/// The first `k` runs are the first `min(k * MAX_PLAINTEXT_BLOB, len)` bytes.
proof fn lemma_chunks_prefix(plain: Seq<u8>, k: nat)
    requires
        k <= chunk_count(plain.len()),
    ensures
        chunks_upto(plain, k) == plain.subrange(
            0,
            if k * MAX_PLAINTEXT_BLOB <= plain.len() {
                k * MAX_PLAINTEXT_BLOB
            } else {
                plain.len() as int
            },
        ),
    decreases k,
{
    if k > 0 {
        lemma_chunks_prefix(plain, (k - 1) as nat);
        assert((k - 1) * MAX_PLAINTEXT_BLOB < plain.len());
        let a = (k - 1) * MAX_PLAINTEXT_BLOB;
        let b = if k * MAX_PLAINTEXT_BLOB <= plain.len() {
            k * MAX_PLAINTEXT_BLOB
        } else {
            plain.len() as int
        };
        assert(plain.subrange(0, a) + plain.subrange(a, b) =~= plain.subrange(0, b));
    } else {
        assert(plain.subrange(0, 0) =~= Seq::<u8>::empty());
    }
}

} // verus!

verus! {

/// In a packed stream every content blob but the last holds a full run and is
/// 2,097,152 bytes of ciphertext; the last holds the remaining `r` bytes and is
/// `16 * (r / 16 + 1)` bytes; each descriptor entry records its blob's length.
pub proof fn lemma_packed_lengths(
    p: PackedBlobs,
    plain: Seq<u8>,
    filename: Seq<char>,
    key: Seq<u8>,
    ivs: Seq<Seq<u8>>,
)
    requires
        packs(p, plain, filename, key, ivs),
        plain.len() > 0,
    ensures
        forall|i: int|
            0 <= i < chunk_count(plain.len()) - 1 ==> (#[trigger] p.blobs@[i]).ciphertext@.len()
                == 2097152,
        p.blobs@[chunk_count(plain.len()) - 1].ciphertext@.len() == ((plain.len() - (chunk_count(
            plain.len(),
        ) - 1) * MAX_PLAINTEXT_BLOB) / 16 + 1) * 16,
        forall|i: int|
            0 <= i < chunk_count(plain.len()) ==> p.sd@.blobs[i].length as int == (
            #[trigger] p.blobs@[i]).ciphertext@.len(),
{
    lemma_chunks_cover(plain);
    let n = chunk_count(plain.len());
    assert forall|i: int| 0 <= i < n - 1 implies (#[trigger] p.blobs@[i]).ciphertext@.len()
        == 2097152 by {
        assert(chunk_of(plain, i).len() == MAX_PLAINTEXT_BLOB);
    }
    assert(((n - 1) * MAX_PLAINTEXT_BLOB) + MAX_PLAINTEXT_BLOB >= plain.len());
    assert(chunk_of(plain, n - 1).len() == plain.len() - (n - 1) * MAX_PLAINTEXT_BLOB);
    assert forall|i: int| 0 <= i < n implies p.sd@.blobs[i].length as int == (
    #[trigger] p.blobs@[i]).ciphertext@.len() by {
        assert(p.sd@.blobs[i] == pack_entry(plain, key, ivs, i));
        assert(p.blobs@[i].ciphertext@.len() <= 2097152);
    }
}

} // verus!

verus! {

/// The descriptor of a packed stream records its inputs as hex that decodes
/// back to them: the file name's own UTF-8 bytes, the stream key, and each
/// blob's IV; each entry names its blob by the SHA-384 of its ciphertext.
pub proof fn lemma_packed_descriptor_fields(
    p: PackedBlobs,
    plain: Seq<u8>,
    filename: Seq<char>,
    key: Seq<u8>,
    ivs: Seq<Seq<u8>>,
)
    requires
        packs(p, plain, filename, key, ivs),
    ensures
        hex_decode_spec(encode_utf8(p.sd@.filename)) == Ok::<Seq<u8>, HexError>(encode_utf8(filename)),
        hex_decode_spec(encode_utf8(p.sd@.key)) == Ok::<Seq<u8>, HexError>(key),
        p.sd@.version == 1,
        p.sd@.blobs.len() == p.blobs@.len(),
        forall|i: int|
            0 <= i < p.blobs@.len() ==> hex_decode_spec(encode_utf8(#[trigger] p.sd@.blobs[i].iv))
                == Ok::<Seq<u8>, HexError>(ivs[i]) && p.sd@.blobs[i].blob_hash == hex_lower(
                crate::digest::sha384(p.blobs@[i].ciphertext@),
            ),
{
    lemma_hex_text(encode_utf8(filename));
    lemma_hex_text(key);
    assert forall|i: int| 0 <= i < p.blobs@.len() implies hex_decode_spec(
        encode_utf8(#[trigger] p.sd@.blobs[i].iv),
    ) == Ok::<Seq<u8>, HexError>(ivs[i]) && p.sd@.blobs[i].blob_hash == hex_lower(
        crate::digest::sha384(p.blobs@[i].ciphertext@),
    ) by {
        lemma_hex_text(ivs[i]);
        assert(p.sd@.blobs[i] == pack_entry(plain, key, ivs, i));
    }
}

} // verus!
