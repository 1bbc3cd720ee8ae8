use browser_superpeer::digest::sha384_hex;
use browser_superpeer::fetch::{open_content_blob, requested_key, OpenError, StreamFetch};
use browser_superpeer::hexcodec::HexError;
use browser_superpeer::lbry_blob::{
    blob_file_name, blob_path, decrypt_content_blob, eq_ignore_ascii_case, validate_sd, verify_blob_hash, DecryptError,
    SdBlobEntry, SdError, StreamDescriptor, MAX_PLAINTEXT_BLOB,
};
use browser_superpeer::pack::{blob_count, pack_stream, pack_stream_with, PackError};
use browser_superpeer::sd_json::encode_sd_json;

const EMPTY_SHA384: &str = "38b060a751ac96384cd9327eb1b1e36a21fdb71114be07434c0cc7bf63f6e1da274edebfe76f65fbd51ad2f14898b95b";
const ABC_SHA384: &str = "cb00753f45a35e8bb5a03d699ac65007272c32ab0eded1631a8b605a43ff5bed8086072ba1e7cc2358baeca134c825a7";
const KEY_HEX: &str = "000102030405060708090a0b0c0d0e0f101112131415161718191a1b1c1d1e1f";
const IV_HEX: &str = "000102030405060708090a0b0c0d0e0f";

fn key() -> [u8; 32] {
    let mut k = [0u8; 32];
    for (i, b) in k.iter_mut().enumerate() {
        *b = i as u8;
    }
    k
}

fn iv() -> [u8; 16] {
    let mut v = [0u8; 16];
    for (i, b) in v.iter_mut().enumerate() {
        *b = i as u8;
    }
    v
}

fn hex_of(bytes: &[u8]) -> String {
    bytes.iter().map(|b| format!("{:02x}", b)).collect()
}

#[test]
fn sha384_hex_known_values() {
    assert_eq!(sha384_hex(b""), EMPTY_SHA384);
    assert_eq!(sha384_hex(b"abc"), ABC_SHA384);
    assert_eq!(sha384_hex(b"abc").len(), 96);
}

#[test]
fn verify_blob_hash_accepts_either_case() {
    assert!(verify_blob_hash(b"abc", ABC_SHA384).is_ok());
    assert!(verify_blob_hash(b"abc", &ABC_SHA384.to_uppercase()).is_ok());
}

#[test]
fn verify_blob_hash_mismatch_reports_both_hashes() {
    let err = verify_blob_hash(b"abd", "CB00753F").unwrap_err();
    assert_eq!(err.expected, "cb00753f");
    assert_eq!(err.got, sha384_hex(b"abd"));
    assert!(verify_blob_hash(b"abc", &ABC_SHA384[..95]).is_err());
    assert!(verify_blob_hash(b"abc", "").is_err());
}

#[test]
fn verify_blob_hash_non_ascii_expected_is_refused() {
    let mut e = ABC_SHA384[..95].to_string();
    e.push('é');
    let err = verify_blob_hash(b"abc", &e).unwrap_err();
    assert_eq!(err.got, ABC_SHA384);
}

#[test]
fn decrypt_content_blob_known_answer() {
    let ct = hex::decode("e177849498b862dbb835e0a9ba7bc0b4").unwrap();
    let plain = decrypt_content_blob(&ct, KEY_HEX, IV_HEX).unwrap();
    assert_eq!(plain, b"hello lbry");
    // upper-case hex is accepted too
    let plain = decrypt_content_blob(&ct, &KEY_HEX.to_uppercase(), IV_HEX).unwrap();
    assert_eq!(plain, b"hello lbry");
}

#[test]
fn decrypt_content_blob_errors() {
    let ct = hex::decode("e177849498b862dbb835e0a9ba7bc0b4").unwrap();
    assert_eq!(
        decrypt_content_blob(&ct, "abc", IV_HEX),
        Err(DecryptError::KeyHex(HexError::OddLength))
    );
    assert_eq!(
        decrypt_content_blob(&ct, "00zz", IV_HEX),
        Err(DecryptError::KeyHex(HexError::InvalidHexCharacter { c: 'z', index: 2 }))
    );
    assert_eq!(
        decrypt_content_blob(&ct, KEY_HEX, "0g"),
        Err(DecryptError::IvHex(HexError::InvalidHexCharacter { c: 'g', index: 1 }))
    );
    assert_eq!(
        decrypt_content_blob(&ct, &KEY_HEX[..32], IV_HEX),
        Err(DecryptError::KeyLength(16))
    );
    assert_eq!(
        decrypt_content_blob(&ct, KEY_HEX, &IV_HEX[..16]),
        Err(DecryptError::IvLength(8))
    );
    assert_eq!(decrypt_content_blob(&ct[..15], KEY_HEX, IV_HEX), Err(DecryptError::Cipher));
    assert_eq!(decrypt_content_blob(&[], KEY_HEX, IV_HEX), Err(DecryptError::Cipher));
    // key errors come before IV errors
    assert_eq!(
        decrypt_content_blob(&ct, "x", "y"),
        Err(DecryptError::KeyHex(HexError::OddLength))
    );
}

#[test]
fn decrypt_under_wrong_key_does_not_give_plaintext() {
    let ct = hex::decode("e177849498b862dbb835e0a9ba7bc0b4").unwrap();
    let wrong = "ff".repeat(32);
    match decrypt_content_blob(&ct, &wrong, IV_HEX) {
        Ok(p) => assert_ne!(p, b"hello lbry"),
        Err(e) => assert_eq!(e, DecryptError::Cipher),
    }
}

fn entry(hash: &str, iv: &str, length: u64) -> SdBlobEntry {
    SdBlobEntry { blob_hash: hash.to_string(), iv: iv.to_string(), length }
}

#[test]
fn validate_sd_cases() {
    let mut sd = StreamDescriptor {
        blobs: vec![entry("aa", "bb", 1)],
        filename: String::new(),
        key: String::new(),
        version: 1,
    };
    assert_eq!(validate_sd(&sd), Ok(()));
    sd.version = 2;
    assert_eq!(validate_sd(&sd), Err(SdError::UnsupportedVersion(2)));
    sd.version = 1;
    sd.blobs.clear();
    assert_eq!(validate_sd(&sd), Err(SdError::NoContentBlobs));
}

fn json_value_of(sd: &StreamDescriptor) -> String {
    let mut blobs = Vec::new();
    for e in &sd.blobs {
        let mut m = serde_json::Map::new();
        m.insert("blob_hash".to_string(), serde_json::Value::String(e.blob_hash.clone()));
        m.insert("iv".to_string(), serde_json::Value::String(e.iv.clone()));
        m.insert("length".to_string(), serde_json::Value::from(e.length));
        blobs.push(serde_json::Value::Object(m));
    }
    let mut m = serde_json::Map::new();
    m.insert("blobs".to_string(), serde_json::Value::Array(blobs));
    m.insert("filename".to_string(), serde_json::Value::String(sd.filename.clone()));
    m.insert("key".to_string(), serde_json::Value::String(sd.key.clone()));
    m.insert("version".to_string(), serde_json::Value::from(sd.version));
    serde_json::to_string(&serde_json::Value::Object(m)).unwrap()
}

#[test]
fn encode_sd_json_matches_serde_json() {
    let sd = StreamDescriptor {
        blobs: vec![entry("ab", "cd", 0), entry("\"q\\", "\u{1}\u{8}\t\n\u{c}\r\u{1f}\u{7f}é", u64::MAX)],
        filename: "a/b \u{0} 🎵".to_string(),
        key: "k".to_string(),
        version: 4294967295,
    };
    let bytes = encode_sd_json(&sd);
    assert_eq!(String::from_utf8(bytes).unwrap(), json_value_of(&sd));
    let empty = StreamDescriptor { blobs: vec![], filename: String::new(), key: String::new(), version: 0 };
    assert_eq!(
        String::from_utf8(encode_sd_json(&empty)).unwrap(),
        "{\"blobs\":[],\"filename\":\"\",\"key\":\"\",\"version\":0}"
    );
}

#[test]
fn pack_known_answer() {
    let p = pack_stream_with(b"hello lbry", "tone.wav", key(), &vec![iv()]).unwrap();
    assert_eq!(p.blobs.len(), 1);
    assert_eq!(hex_of(&p.blobs[0].ciphertext), "e177849498b862dbb835e0a9ba7bc0b4");
    assert_eq!(
        p.blobs[0].hash,
        "ca8c5964142a8e6764cf8589f1e263db13f2d70dfbfbd14d4dbb6d6a0a5940b3520dd0baca0d6783f14d26bb7029f07e"
    );
    assert_eq!(p.key_hex, KEY_HEX);
    assert_eq!(p.filename, "tone.wav");
    assert_eq!(
        String::from_utf8(p.sd_bytes.clone()).unwrap(),
        "{\"blobs\":[{\"blob_hash\":\"ca8c5964142a8e6764cf8589f1e263db13f2d70dfbfbd14d4dbb6d6a0a5940b3520dd0baca0d6783f14d26bb7029f07e\",\"iv\":\"000102030405060708090a0b0c0d0e0f\",\"length\":16}],\"filename\":\"746f6e652e776176\",\"key\":\"000102030405060708090a0b0c0d0e0f101112131415161718191a1b1c1d1e1f\",\"version\":1}"
    );
    assert_eq!(
        p.sd_hash,
        "e9da82bb58c28030f40e909223ee40c33d5ceb031494414207481af365ec3619bd843885fcff4e13ab5c71e0044d67a0"
    );
    assert!(verify_blob_hash(&p.sd_bytes, &p.sd_hash).is_ok());
    assert_eq!(validate_sd(&p.sd), Ok(()));
}

#[test]
fn pack_empty_input_is_refused() {
    assert!(matches!(pack_stream_with(b"", "x", key(), &vec![]), Err(PackError::EmptyInput)));
    assert!(matches!(pack_stream(b"", "x"), Err(PackError::EmptyInput)));
}

#[test]
fn blob_count_edges() {
    assert_eq!(blob_count(0), 0);
    assert_eq!(blob_count(1), 1);
    assert_eq!(blob_count(MAX_PLAINTEXT_BLOB), 1);
    assert_eq!(blob_count(MAX_PLAINTEXT_BLOB + 1), 2);
    assert_eq!(blob_count(2 * MAX_PLAINTEXT_BLOB), 2);
}

#[test]
fn pack_splits_into_max_sized_blobs() {
    let plain: Vec<u8> = (0..(MAX_PLAINTEXT_BLOB + 5)).map(|i| (i % 251) as u8).collect();
    let ivs = vec![iv(), [7u8; 16]];
    let p = pack_stream_with(&plain, "big.bin", key(), &ivs).unwrap();
    assert_eq!(p.blobs.len(), 2);
    assert_eq!(p.blobs[0].ciphertext.len(), (MAX_PLAINTEXT_BLOB / 16 + 1) * 16);
    assert_eq!(p.blobs[1].ciphertext.len(), 16);
    assert_eq!(p.blobs[0].ciphertext.len(), 2_097_152);
    assert_eq!(p.sd.blobs[1].length, 16);
    assert_eq!(p.sd.blobs[1].iv, "07".repeat(16));
    assert_eq!(p.sd.blobs[0].length, p.blobs[0].ciphertext.len() as u64);
    let first = decrypt_content_blob(&p.blobs[0].ciphertext, &p.key_hex, &p.sd.blobs[0].iv).unwrap();
    assert_eq!(first.len(), MAX_PLAINTEXT_BLOB);
    assert_eq!(&first[..], &plain[..MAX_PLAINTEXT_BLOB]);
}

#[test]
fn pack_then_fetch_gives_back_the_plaintext() {
    let plain: Vec<u8> = (0..40000u32).map(|i| (i * 7 % 256) as u8).collect();
    let p = pack_stream(&plain, "song.mp3").unwrap();
    assert_ne!(p.blobs[0].ciphertext[..16], plain[..16]);
    let mut f = StreamFetch::new(p.sd, None);
    let mut i = 0;
    while let Some(h) = f.next_hash() {
        assert_eq!(h, p.blobs[i].hash);
        f.accept(&p.blobs[i].ciphertext).unwrap();
        i += 1;
    }
    assert!(f.is_done());
    assert_eq!(f.out, plain);
}

#[test]
fn fetch_refuses_a_wrong_blob_and_keeps_its_state() {
    let p = pack_stream(b"some media bytes", "a.wav").unwrap();
    let mut f = StreamFetch::new(p.sd, None);
    let mut bad = p.blobs[0].ciphertext.clone();
    bad[0] ^= 1;
    assert!(matches!(f.accept(&bad), Err(OpenError::Hash(_))));
    assert_eq!(f.next, 0);
    assert!(f.out.is_empty());
    f.accept(&p.blobs[0].ciphertext).unwrap();
    assert_eq!(f.out, b"some media bytes");
    assert!(f.is_done());
    assert_eq!(f.next_hash(), None);
}

#[test]
fn fetch_with_key_override() {
    let p = pack_stream(b"abc", "a").unwrap();
    let mut f = StreamFetch::new(p.sd, Some("00".repeat(32)));
    assert_eq!(f.key, "00".repeat(32));
    match f.accept(&p.blobs[0].ciphertext) {
        Ok(()) => assert_ne!(f.out, b"abc"),
        Err(e) => assert!(matches!(e, OpenError::Decrypt(DecryptError::Cipher))),
    }
}

#[test]
fn open_content_blob_checks_then_decrypts() {
    let ct = hex::decode("e177849498b862dbb835e0a9ba7bc0b4").unwrap();
    let e = entry(&sha384_hex(&ct).to_uppercase(), IV_HEX, 16);
    assert_eq!(open_content_blob(&ct, &e, KEY_HEX).unwrap(), b"hello lbry");
    let e2 = entry(ABC_SHA384, IV_HEX, 16);
    assert!(matches!(open_content_blob(&ct, &e2, KEY_HEX), Err(OpenError::Hash(_))));
    assert!(matches!(
        open_content_blob(&ct, &e, "00"),
        Err(OpenError::Decrypt(DecryptError::KeyLength(1)))
    ));
}

#[test]
fn blob_path_lowercases_the_hash() {
    assert_eq!(blob_file_name("ABCdef"), "abcdef");
    let p = blob_path(std::path::Path::new("blobs"), "ABCdef");
    assert_eq!(p, std::path::Path::new("blobs").join("abcdef"));
    assert_eq!(blob_path(std::path::Path::new("blobs"), "ABCDEF"), p);
    assert_eq!(blob_path(std::path::Path::new("blobs"), "abcdef"), p);
}

#[test]
fn decrypt_accepts_upper_case_key_and_iv() {
    let p = pack_stream_with(b"case", "c", key(), &vec![iv()]).unwrap();
    let plain = decrypt_content_blob(
        &p.blobs[0].ciphertext,
        &KEY_HEX.to_uppercase(),
        &IV_HEX.to_uppercase(),
    )
    .unwrap();
    assert_eq!(plain, b"case");
}

#[test]
fn eq_ignore_ascii_case_cases() {
    assert!(eq_ignore_ascii_case("ABCdef", "abcDEF"));
    assert!(eq_ignore_ascii_case("", ""));
    assert!(!eq_ignore_ascii_case("abc", "abcd"));
    assert!(!eq_ignore_ascii_case("É", "é"));
    assert!(eq_ignore_ascii_case("é-X", "é-x"));
    assert!(!eq_ignore_ascii_case("a", "b"));
}

#[test]
fn requested_key_drops_empty_keys() {
    assert_eq!(requested_key(None), None);
    assert_eq!(requested_key(Some(String::new())), None);
    assert_eq!(requested_key(Some("ab".to_string())), Some("ab".to_string()));
}

#[test]
fn accept_reports_decrypt_errors() {
    let p = pack_stream(b"xyz", "a").unwrap();
    let mut f = StreamFetch::new(p.sd, Some("00".to_string()));
    assert!(matches!(
        f.accept(&p.blobs[0].ciphertext),
        Err(OpenError::Decrypt(DecryptError::KeyLength(1)))
    ));
    assert_eq!(f.next, 0);
}
