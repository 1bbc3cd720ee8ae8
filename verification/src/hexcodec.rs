//! Hexadecimal text encoding of byte strings, as used for blob hashes,
//! stream keys, IVs and file names in stream descriptors.

use vstd::prelude::*;

verus! {

/// The lowercase hexadecimal digit for a value below sixteen.
pub open spec fn hex_digit(n: int) -> char {
    if n < 10 {
        (n + 48) as char
    } else {
        (n + 87) as char
    }
}

/// Lowercase hexadecimal text of `bytes`: two digits per byte, high nibble first.
pub open spec fn hex_lower(bytes: Seq<u8>) -> Seq<char> {
    Seq::new(
        2 * bytes.len(),
        |i: int|
            if i % 2 == 0 {
                hex_digit(bytes[i / 2] as int / 16)
            } else {
                hex_digit(bytes[i / 2] as int % 16)
            },
    )
}

/// Value of one hexadecimal digit byte, upper or lower case.
pub open spec fn hex_value(c: u8) -> Option<u8> {
    if 48 <= c <= 57 {
        Some((c - 48) as u8)
    } else if 97 <= c <= 102 {
        Some((c - 87) as u8)
    } else if 65 <= c <= 70 {
        Some((c - 55) as u8)
    } else {
        None
    }
}

/// Why a hexadecimal text could not be decoded.
#[derive(Debug, Clone, Copy, PartialEq, Eq)]
pub enum HexError {
    /// The byte at `index` is not a hexadecimal digit.
    InvalidHexCharacter { c: char, index: usize },
    /// The text has an odd number of bytes.
    OddLength,
    /// The text does not fit the fixed size asked for.
    InvalidStringLength,
}

/// Every byte of `text` is a hexadecimal digit.
pub open spec fn all_hex(text: Seq<u8>) -> bool {
    forall|i: int| 0 <= i < text.len() ==> (#[trigger] hex_value(text[i])) is Some
}

/// `i` is the position of the first byte of `text` that is not a hexadecimal digit.
pub open spec fn first_non_hex(text: Seq<u8>, i: int) -> bool {
    &&& 0 <= i < text.len()
    &&& hex_value(text[i]) is None
    &&& forall|j: int| 0 <= j < i ==> (#[trigger] hex_value(text[j])) is Some
}

/// The bytes spelled by a text of hexadecimal digits, two digits per byte.
pub open spec fn hex_bytes(text: Seq<u8>) -> Seq<u8> {
    Seq::new(
        text.len() / 2,
        |k: int|
            (hex_value(text[2 * k])->0 * 16 + hex_value(text[2 * k + 1])->0) as u8,
    )
}

/// Decoding of hexadecimal text: odd length is refused first, then the first
/// byte that is not a digit, in text order.
pub open spec fn hex_decode_spec(text: Seq<u8>) -> Result<Seq<u8>, HexError> {
    if text.len() % 2 == 1 {
        Err(HexError::OddLength)
    } else if all_hex(text) {
        Ok(hex_bytes(text))
    } else {
        let i = choose|i: int| first_non_hex(text, i);
        Err(HexError::InvalidHexCharacter { c: text[i] as char, index: i as usize })
    }
}

/// What a decoding result holds, seen through the views of its bytes.
pub open spec fn hex_result_view(r: Result<Vec<u8>, HexError>) -> Result<Seq<u8>, HexError> {
    match r {
        Ok(v) => Ok(v@),
        Err(e) => Err(e),
    }
}

/// Calls `hex::encode`, which writes each byte as two lowercase hexadecimal
/// digits, high nibble first.
#[verifier::external_body]
pub(crate) fn hex_encode(data: &[u8]) -> (res: String)
    ensures
        res@ == hex_lower(data@),
{
    hex::encode(data)
}

/// Calls `hex::decode` on the bytes of a text. It refuses an odd length with
/// `OddLength`, and otherwise reports the first byte, in order, that is not
/// one of `0-9`, `a-f`, `A-F`, with its position; on success each pair of
/// digits gives one byte.
#[verifier::external_body]
pub(crate) fn hex_decode(text: &[u8]) -> (res: Result<Vec<u8>, HexError>)
    ensures
        hex_result_view(res) == hex_decode_spec(text@),
{
    match hex::decode(text) {
        Ok(v) => Ok(v),
        Err(hex::FromHexError::InvalidHexCharacter { c, index }) => Err(
            HexError::InvalidHexCharacter { c, index },
        ),
        Err(hex::FromHexError::OddLength) => Err(HexError::OddLength),
        Err(hex::FromHexError::InvalidStringLength) => Err(HexError::InvalidStringLength),
    }
}

/// The bytes of ASCII characters, one per character.
pub open spec fn ascii_bytes(chars: Seq<char>) -> Seq<u8> {
    Seq::new(chars.len(), |i: int| chars[i] as u8)
}

/// Decoding the lowercase hexadecimal text of `bytes` gives `bytes` back.
pub proof fn lemma_hex_roundtrip(bytes: Seq<u8>)
    ensures
        hex_decode_spec(ascii_bytes(hex_lower(bytes))) == Ok::<Seq<u8>, HexError>(bytes),
{
    let text = ascii_bytes(hex_lower(bytes));
    assert forall|i: int| 0 <= i < text.len() implies (#[trigger] hex_value(text[i])) is Some by {
        let b = bytes[i / 2];
        assert(0 <= b as int / 16 < 16);
    }
    assert(text.len() % 2 == 0);
    let d = hex_bytes(text);
    assert forall|k: int| 0 <= k < bytes.len() implies d[k] == bytes[k] by {
        let b = bytes[k];
        assert(text[2 * k] == hex_digit(b as int / 16) as u8);
        assert(text[2 * k + 1] == hex_digit(b as int % 16) as u8);
    }
    assert(d =~= bytes);
}


/// Lowercase hexadecimal text is ASCII, is unchanged by ASCII case folding,
/// and its UTF-8 bytes decode back to the bytes it spells.
pub proof fn lemma_hex_text(bytes: Seq<u8>)
    ensures
        vstd::utf8::is_ascii_chars(hex_lower(bytes)),
        vstd::utf8::encode_utf8(hex_lower(bytes)) == ascii_bytes(hex_lower(bytes)),
        crate::text::ascii_lower_seq(hex_lower(bytes)) == hex_lower(bytes),
        hex_decode_spec(vstd::utf8::encode_utf8(hex_lower(bytes))) == Ok::<Seq<u8>, HexError>(
            bytes,
        ),
{
    let h = hex_lower(bytes);
    assert forall|i: int| 0 <= i < h.len() implies '\0' <= #[trigger] h[i] <= '\u{7f}' by {
        assert(0 <= bytes[i / 2] as int / 16 < 16);
    }
    vstd::utf8::is_ascii_chars_encode_utf8(h);
    assert(vstd::utf8::encode_utf8(h) =~= ascii_bytes(h));
    assert forall|i: int| 0 <= i < h.len() implies crate::text::ascii_lower_seq(h)[i] == h[i] by {
        assert(0 <= bytes[i / 2] as int / 16 < 16);
    }
    assert(crate::text::ascii_lower_seq(h) =~= h);
    lemma_hex_roundtrip(bytes);
}


/// Upper-case hexadecimal text decodes to the same bytes as lowercase.
pub proof fn lemma_hex_upper(bytes: Seq<u8>)
    ensures
        vstd::utf8::is_ascii_chars(crate::text::ascii_upper_seq(hex_lower(bytes))),
        hex_decode_spec(vstd::utf8::encode_utf8(crate::text::ascii_upper_seq(hex_lower(bytes))))
            == Ok::<Seq<u8>, HexError>(bytes),
{
    let h = hex_lower(bytes);
    let u = crate::text::ascii_upper_seq(h);
    lemma_hex_text(bytes);
    crate::text::lemma_ascii_upper(h);
    vstd::utf8::is_ascii_chars_encode_utf8(u);
    let t = vstd::utf8::encode_utf8(u);
    assert(t.len() == 2 * bytes.len());
    assert forall|i: int| 0 <= i < t.len() implies (#[trigger] hex_value(t[i])) is Some by {
        assert(t[i] == u[i] as u8);
        assert(0 <= bytes[i / 2] as int / 16 < 16);
    }
    let d = hex_bytes(t);
    assert forall|k: int| 0 <= k < bytes.len() implies d[k] == bytes[k] by {
        let b = bytes[k];
        assert(t[2 * k] == u[2 * k] as u8);
        assert(t[2 * k + 1] == u[2 * k + 1] as u8);
        assert(0 <= b as int / 16 < 16);
    }
    assert(d =~= bytes);
}

} // verus!
