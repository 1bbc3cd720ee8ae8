//! Pasteable superpeer tickets: the JSON address of an endpoint, written as
//! URL-safe base64 without padding.

use vstd::prelude::*;
use vstd::utf8::*;
use base64::Engine;
use crate::text::{is_white_space, lemma_trim_around, lemma_trim_no_white, trim, trim_spec};

verus! {

/// A character of the URL-safe base64 alphabet: `A`-`Z`, `a`-`z`, `0`-`9`, `-`, `_`.
pub open spec fn is_url_safe_b64_char(c: char) -> bool {
    ||| 'A' <= c <= 'Z'
    ||| 'a' <= c <= 'z'
    ||| '0' <= c <= '9'
    ||| c == '-'
    ||| c == '_'
}

/// URL-safe base64 text of `data`, without padding.
pub uninterp spec fn b64_url_nopad_encode(data: Seq<u8>) -> Seq<char>;

/// The bytes spelled by URL-safe base64 text without padding; `None` if the
/// text is not such base64.
pub uninterp spec fn b64_url_nopad_decode(text: Seq<u8>) -> Option<Seq<u8>>;

/// The bytes spelled by URL-safe base64 text with canonical padding; `None` if
/// the text is not such base64.
pub uninterp spec fn b64_url_padded_decode(text: Seq<u8>) -> Option<Seq<u8>>;

/// The length of unpadded base64 text for `n` bytes fits an allocation:
/// four characters per three bytes, two or three for a final partial group.
pub open spec fn b64_nopad_len_fits(n: nat) -> bool {
    let tail: nat = if n % 3 == 0 {
        0
    } else if n % 3 == 1 {
        2
    } else {
        3
    };
    (n / 3) * 4 + tail <= isize::MAX
}

/// Base64 text padded with `=` to a multiple of four characters.
pub open spec fn pad_to_four(text: Seq<char>) -> Seq<char> {
    text + Seq::new(((4 - text.len() % 4) % 4) as nat, |i: int| '=')
}

/// Calls `URL_SAFE_NO_PAD.encode` of `base64::engine::general_purpose`: text
/// over the URL-safe alphabet, without padding, which the same engine decodes
/// back to `data`. The same text padded with `=` to a multiple of four is
/// refused by that engine, which requires no padding, and decodes to `data`
/// under `URL_SAFE`, which requires canonical padding. The length bound keeps
/// the output length computation and its buffer allocation from panicking.
#[verifier::external_body]
fn b64_encode_url_nopad(data: &[u8]) -> (res: String)
    requires
        b64_nopad_len_fits(data@.len()),
    ensures
        res@ == b64_url_nopad_encode(data@),
        forall|i: int| 0 <= i < res@.len() ==> is_url_safe_b64_char(#[trigger] res@[i]),
        b64_url_nopad_decode(encode_utf8(res@)) == Some(data@),
        b64_url_padded_decode(encode_utf8(pad_to_four(res@))) == Some(data@),
        pad_to_four(res@) != res@ ==> b64_url_nopad_decode(encode_utf8(pad_to_four(res@))) is None,
{
    base64::engine::general_purpose::URL_SAFE_NO_PAD.encode(data)
}

/// Calls `URL_SAFE_NO_PAD.decode` of `base64::engine::general_purpose`, which
/// refuses padding; `None` on any decoding error.
#[verifier::external_body]
fn b64_decode_url_nopad(text: &[u8]) -> (res: Option<Vec<u8>>)
    ensures
        match res {
            Some(v) => b64_url_nopad_decode(text@) == Some(v@),
            None => b64_url_nopad_decode(text@) is None,
        },
{
    base64::engine::general_purpose::URL_SAFE_NO_PAD.decode(text).ok()
}

/// Calls `URL_SAFE.decode` of `base64::engine::general_purpose`, which
/// requires canonical padding; `None` on any decoding error.
#[verifier::external_body]
fn b64_decode_url_padded(text: &[u8]) -> (res: Option<Vec<u8>>)
    ensures
        match res {
            Some(v) => b64_url_padded_decode(text@) == Some(v@),
            None => b64_url_padded_decode(text@) is None,
        },
{
    base64::engine::general_purpose::URL_SAFE.decode(text).ok()
}

/// A ticket that is not base64 in either accepted form.
#[derive(Debug, Clone, Copy, PartialEq, Eq)]
pub enum TicketError {
    Base64,
}

/// The ticket for the JSON text of an endpoint address: URL-safe base64
/// without padding. Decoding the ticket, or the same ticket padded with `=`,
/// gives the same bytes back.
pub fn encode_ticket(json: &[u8]) -> (res: String)
    requires
        b64_nopad_len_fits(json@.len()),
    ensures
        res@ == b64_url_nopad_encode(json@),
        forall|i: int| 0 <= i < res@.len() ==> is_url_safe_b64_char(#[trigger] res@[i]),
        b64_url_nopad_decode(encode_utf8(res@)) == Some(json@),
        ticket_bytes(res@) == Ok::<Seq<u8>, TicketError>(json@),
        ticket_bytes(pad_to_four(res@)) == Ok::<Seq<u8>, TicketError>(json@),
{
    let t = b64_encode_url_nopad(json);
    proof {
        lemma_ticket_roundtrip(json@, t@);
        let p = pad_to_four(t@);
        assert forall|i: int| 0 <= i < p.len() implies !is_white_space(#[trigger] p[i]) by {
            if i < t@.len() {
                assert(is_url_safe_b64_char(t@[i]));
            }
        }
        lemma_trim_no_white(p);
    }
    t
}

/// White space around a ticket does not change what it decodes to.
pub proof fn lemma_ticket_whitespace(w1: Seq<char>, ticket: Seq<char>, w2: Seq<char>)
    requires
        forall|i: int| 0 <= i < w1.len() ==> is_white_space(#[trigger] w1[i]),
        forall|i: int| 0 <= i < w2.len() ==> is_white_space(#[trigger] w2[i]),
        forall|i: int| 0 <= i < ticket.len() ==> !is_white_space(#[trigger] ticket[i]),
    ensures
        ticket_bytes(w1 + ticket + w2) == ticket_bytes(ticket),
{
    lemma_trim_around(w1, ticket, w2);
    lemma_trim_no_white(ticket);
}

/// The bytes a ticket holds: after trimming white space, URL-safe base64
/// without padding, or failing that, with padding.
pub open spec fn ticket_bytes(ticket: Seq<char>) -> Result<Seq<u8>, TicketError> {
    let t = encode_utf8(trim_spec(ticket));
    match b64_url_nopad_decode(t) {
        Some(v) => Ok(v),
        None => match b64_url_padded_decode(t) {
            Some(v) => Ok(v),
            None => Err(TicketError::Base64),
        },
    }
}

/// The JSON text of the endpoint address that a pasted ticket holds.
pub fn decode_ticket(ticket: &str) -> (res: Result<Vec<u8>, TicketError>)
    ensures
        match res {
            Ok(v) => ticket_bytes(ticket@) == Ok::<Seq<u8>, TicketError>(v@),
            Err(e) => ticket_bytes(ticket@) == Err::<Seq<u8>, TicketError>(e),
        },
{
    let t = trim(ticket);
    match b64_decode_url_nopad(t.as_bytes()) {
        Some(v) => Ok(v),
        None => match b64_decode_url_padded(t.as_bytes()) {
            Some(v) => Ok(v),
            None => Err(TicketError::Base64),
        },
    }
}

/// Base64 text over the URL-safe alphabet that decodes without padding is
/// read back by ticket decoding as the same bytes.
proof fn lemma_ticket_roundtrip(json: Seq<u8>, ticket: Seq<char>)
    requires
        ticket == b64_url_nopad_encode(json),
        forall|i: int| 0 <= i < ticket.len() ==> is_url_safe_b64_char(#[trigger] ticket[i]),
        b64_url_nopad_decode(encode_utf8(ticket)) == Some(json),
    ensures
        ticket_bytes(ticket) == Ok::<Seq<u8>, TicketError>(json),
{
    assert forall|i: int| 0 <= i < ticket.len() implies !is_white_space(#[trigger] ticket[i]) by {
        assert(is_url_safe_b64_char(ticket[i]));
    }
    lemma_trim_no_white(ticket);
}

} // verus!
