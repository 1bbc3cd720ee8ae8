//! The request/response framing of blob exchange over one bidirectional
//! stream.
//!
//! Client to server: one command byte (1 = Have, 2 = GetBlob), one byte with
//! the length of the hash text, then the hash text (lowercase hex).
//! Server to client, for Have: one byte, 1 if present and 0 if not; for
//! GetBlob: a big-endian `u32` status (0 = OK, 1 = not found, 2 = bad
//! request), and if OK a big-endian `u64` length followed by the blob bytes.
//!
//! Reading is done by the caller; the step functions here say, from the bytes
//! received so far, how many more to read or what the message is.

use vstd::prelude::*;
use vstd::utf8::*;
use crate::text::{ascii_lower_seq, to_lowercase, unicode_lower, utf8_to_string};

verus! {

/// Command byte: does the peer have a blob?
pub const CMD_HAVE: u8 = 1;

/// Command byte: send a blob.
pub const CMD_GET: u8 = 2;

/// Status of a GetBlob reply: the blob follows.
pub const ST_OK: u32 = 0;

/// Status of a GetBlob reply: the blob is not here.
pub const ST_NOT_FOUND: u32 = 1;

/// Status of a reply to an unknown command.
pub const ST_BAD: u32 = 2;

/// Largest blob a client accepts: 3 MiB, a little over a 2 MiB content blob
/// with its padding.
pub const MAX_REPLY_BLOB: u64 = 3145728;

/// `256` to the power `n`.
pub open spec fn pow256(n: nat) -> nat
    decreases n,
{
    if n == 0 {
        1
    } else {
        256 * pow256((n - 1) as nat)
    }
}

/// The `n` big-endian bytes of `v`, keeping its low `8 * n` bits.
pub open spec fn be_bytes(v: nat, n: nat) -> Seq<u8>
    decreases n,
{
    if n == 0 {
        Seq::empty()
    } else {
        be_bytes(v / 256, (n - 1) as nat).push((v % 256) as u8)
    }
}

/// The number that big-endian bytes spell.
pub open spec fn be_value(b: Seq<u8>) -> nat
    decreases b.len(),
{
    if b.len() == 0 {
        0
    } else {
        be_value(b.drop_last()) * 256 + b.last() as nat
    }
}

/// The bytes of `v`, read back, are `v`, when `v` fits in them.
pub proof fn lemma_be_roundtrip(v: nat, n: nat)
    requires
        v < pow256(n),
    ensures
        be_bytes(v, n).len() == n,
        be_value(be_bytes(v, n)) == v,
    decreases n,
{
    if n > 0 {
        assert(v / 256 < pow256((n - 1) as nat));
        lemma_be_roundtrip(v / 256, (n - 1) as nat);
        assert(be_bytes(v, n).drop_last() == be_bytes(v / 256, (n - 1) as nat));
    }
}

/// Big-endian bytes of length `n` spell a number below `256` to the `n`.
pub proof fn lemma_be_bound(b: Seq<u8>)
    ensures
        be_value(b) < pow256(b.len()),
    decreases b.len(),
{
    if b.len() > 0 {
        lemma_be_bound(b.drop_last());
    }
}

/// Appends the `n` big-endian bytes of `v`.
pub fn push_be(out: &mut Vec<u8>, v: u64, n: usize)
    ensures
        final(out)@ == old(out)@ + be_bytes(v as nat, n as nat),
    decreases n,
{
    if n > 0 {
        push_be(out, v / 256, n - 1);
        out.push((v % 256) as u8);
        assert(out@ =~= old(out)@ + be_bytes(v as nat, n as nat));
    } else {
        assert(out@ =~= old(out)@ + be_bytes(v as nat, n as nat));
    }
}

/// The number spelled by `b[start..start + n]`, big-endian.
pub fn read_be(b: &[u8], start: usize, n: usize) -> (res: u64)
    requires
        n <= 8,
        start + n <= b@.len(),
    ensures
        res as nat == be_value(b@.subrange(start as int, start + n)),
{
    let blen = b.len();
    let mut acc: u64 = 0;
    let mut i: usize = 0;
    while i < n
        invariant
            blen == b@.len(),
            n <= 8,
            start + n <= b@.len(),
            i <= n,
            acc as nat == be_value(b@.subrange(start as int, start + i)),
        decreases n - i,
    {
        proof {
            lemma_be_bound(b@.subrange(start as int, start + i));
            assert(pow256(i as nat) <= pow256(7)) by {
                lemma_pow256_mono(i as nat, 7);
            }
            assert(pow256(7) == 0x100000000000000) by {
                reveal_with_fuel(pow256, 8);
            }
            assert(b@.subrange(start as int, start + i + 1).drop_last() =~= b@.subrange(
                start as int,
                start + i,
            ));
        }
        acc = acc * 256 + b[start + i] as u64;
        i = i + 1;
    }
    acc
}

/// The eight big-endian bytes of a `u64` read back as the same number, and
/// likewise the four bytes of a `u32`.
pub proof fn lemma_be_int_roundtrip(v: u64, w: u32)
    ensures
        be_bytes(v as nat, 8).len() == 8,
        be_value(be_bytes(v as nat, 8)) == v,
        be_bytes(w as nat, 4).len() == 4,
        be_value(be_bytes(w as nat, 4)) == w,
{
    reveal_with_fuel(pow256, 9);
    lemma_be_roundtrip(v as nat, 8);
    lemma_be_roundtrip(w as nat, 4);
}

/// `256` to a power grows with the power.
pub proof fn lemma_pow256_mono(a: nat, b: nat)
    requires
        a <= b,
    ensures
        pow256(a) <= pow256(b),
    decreases b,
{
    if a < b {
        lemma_pow256_mono(a, (b - 1) as nat);
    }
}

} // verus!

verus! {

/// The request frame for `cmd` and the bytes of a hash text.
pub open spec fn request_frame(cmd: u8, hash: Seq<u8>) -> Seq<u8> {
    seq![cmd, hash.len() as u8] + hash
}

/// A request frame is the command byte, the hash's byte length, then the
/// hash bytes in their order.
pub proof fn lemma_request_frame_layout(cmd: u8, hash: Seq<u8>)
    requires
        hash.len() <= 255,
    ensures
        request_frame(cmd, hash).len() == 2 + hash.len(),
        request_frame(cmd, hash)[0] == cmd,
        request_frame(cmd, hash)[1] as int == hash.len(),
        forall|i: int| 0 <= i < hash.len() ==> request_frame(cmd, hash)[2 + i] == #[trigger] hash[i],
{
    let f = request_frame(cmd, hash);
    assert forall|i: int| 0 <= i < hash.len() implies f[2 + i] == #[trigger] hash[i] by {}
}

/// The hash a server reads from a complete frame is the bytes after the
/// length byte, as many as it gives, in their order.
pub proof fn lemma_request_hash_layout(b: Seq<u8>)
    requires
        2 <= b.len(),
        2 + b[1] <= b.len(),
    ensures
        request_hash(b).len() == b[1] as int,
        forall|i: int| 0 <= i < b[1] ==> #[trigger] request_hash(b)[i] == b[2 + i],
        request_hash(b) == b.subrange(2, 2 + b[1] as int),
{
    let h = request_hash(b);
    assert forall|i: int| 0 <= i < b[1] implies #[trigger] h[i] == b[2 + i] by {}
    assert(h =~= b.subrange(2, 2 + b[1] as int));
}

/// The bytes a client sends for a hash: its Unicode lowercase, as UTF-8.
pub open spec fn wire_hash(hash_hex: Seq<char>) -> Seq<u8> {
    encode_utf8(unicode_lower(hash_hex))
}

/// Why a request cannot be framed.
#[derive(Debug, Clone, Copy, PartialEq, Eq)]
pub enum RequestError {
    /// The lowercased hash text is longer than 255 bytes.
    HashTooLong,
}

/// The request frame a client sends to ask `cmd` about the blob `hash_hex`;
/// the hash is sent lowercased, and must then fit in 255 bytes.
pub fn encode_request(cmd: u8, hash_hex: &str) -> (res: Result<Vec<u8>, RequestError>)
    ensures
        wire_hash(hash_hex@).len() > 255 ==> res == Err::<Vec<u8>, RequestError>(
            RequestError::HashTooLong,
        ),
        wire_hash(hash_hex@).len() <= 255 ==> (res matches Ok(v) && v@ == request_frame(
            cmd,
            wire_hash(hash_hex@),
        )),
        is_ascii_chars(hash_hex@) ==> unicode_lower(hash_hex@) == ascii_lower_seq(hash_hex@),
        res matches Ok(v) ==> {
            &&& v@.len() == 2 + wire_hash(hash_hex@).len()
            &&& v@[0] == cmd
            &&& v@[1] as int == wire_hash(hash_hex@).len()
            &&& forall|i: int| 0 <= i < wire_hash(hash_hex@).len() ==> v@[2 + i] == #[trigger] wire_hash(hash_hex@)[i]
        },
{
    let h = to_lowercase(hash_hex);
    let bytes = h.as_str().as_bytes();
    if bytes.len() > 255 {
        return Err(RequestError::HashTooLong);
    }
    let mut out: Vec<u8> = Vec::new();
    out.push(cmd);
    out.push(bytes.len() as u8);
    out.extend_from_slice(bytes);
    assert(out@ =~= request_frame(cmd, wire_hash(hash_hex@)));
    proof {
        lemma_request_frame_layout(cmd, wire_hash(hash_hex@));
    }
    Ok(out)
}

/// A request as the server reads it.
#[derive(Debug)]
pub struct Request {
    pub cmd: u8,
    pub hash: String,
}

/// Why a received request frame is refused.
#[derive(Debug, Clone, Copy, PartialEq, Eq)]
pub enum RequestReadError {
    /// The hash bytes are not UTF-8.
    HashNotUtf8,
}

/// What to do after receiving some bytes of a request.
#[derive(Debug)]
pub enum RequestStep {
    /// Read exactly this many more bytes.
    Read(usize),
    /// The request is complete.
    Done(Result<Request, RequestReadError>),
}

/// How many more bytes a server reads after receiving `b`: the command byte
/// and the length byte one at a time, then the rest of the hash; zero once
/// the frame is complete.
pub open spec fn request_need(b: Seq<u8>) -> nat {
    if b.len() < 2 {
        1
    } else if b.len() < 2 + b[1] {
        (2 + b[1] - b.len()) as nat
    } else {
        0
    }
}

/// The hash bytes of a complete request frame.
pub open spec fn request_hash(b: Seq<u8>) -> Seq<u8> {
    b.subrange(2, 2 + b[1] as int)
}

/// The server's step on the request bytes received so far: read one command
/// byte, then one length byte, then that many hash bytes; the hash must be
/// UTF-8.
pub fn request_step(received: &[u8]) -> (res: RequestStep)
    ensures
        request_need(received@) > 0 ==> (res matches RequestStep::Read(k) && k == request_need(
            received@,
        )),
        request_need(received@) == 0 ==> (res matches RequestStep::Done(r) && match r {
            Ok(req) => valid_utf8(request_hash(received@)) && req.cmd == received@[0]
                && req.hash@ == decode_utf8(request_hash(received@))
                && req.hash@ == decode_utf8(received@.subrange(2, 2 + received@[1] as int)),
            Err(e) => !valid_utf8(request_hash(received@)) && e == RequestReadError::HashNotUtf8,
        }),
{
    let len = received.len();
    if len < 2 {
        return RequestStep::Read(1);
    }
    let n: usize = received[1] as usize;
    if len < 2 + n {
        return RequestStep::Read(2 + n - len);
    }
    let mut hash: Vec<u8> = Vec::new();
    hash.extend_from_slice(&received[2..2 + n]);
    assert(hash@ =~= request_hash(received@));
    proof {
        lemma_request_hash_layout(received@);
    }
    match utf8_to_string(hash) {
        Some(s) => RequestStep::Done(Ok(Request { cmd: received[0], hash: s })),
        None => RequestStep::Done(Err(RequestReadError::HashNotUtf8)),
    }
}

} // verus!

verus! {

/// Whether the server looks the blob up for a command: only for Have and GetBlob.
pub fn needs_lookup(cmd: u8) -> (res: bool)
    ensures
        res == (cmd == CMD_HAVE || cmd == CMD_GET),
{
    cmd == CMD_HAVE || cmd == CMD_GET
}

/// The reply the server sends for `cmd`, given what the lookup found.
pub open spec fn reply_frame(cmd: u8, blob: Option<Seq<u8>>) -> Seq<u8> {
    if cmd == CMD_HAVE {
        if blob is Some {
            seq![1u8]
        } else {
            seq![0u8]
        }
    } else if cmd == CMD_GET {
        match blob {
            Some(d) => be_bytes(ST_OK as nat, 4) + be_bytes(d.len(), 8) + d,
            None => be_bytes(ST_NOT_FOUND as nat, 4),
        }
    } else {
        be_bytes(ST_BAD as nat, 4)
    }
}

/// The bytes the server sends back for `cmd`: for Have, 1 or 0; for GetBlob,
/// status OK with the length and the bytes, or status not found; for any
/// other command, status bad request (and the request then fails).
pub fn reply_bytes(cmd: u8, blob: Option<&[u8]>) -> (res: Vec<u8>)
    ensures
        res@ == reply_frame(
            cmd,
            match blob {
                Some(d) => Some(d@),
                None => None,
            },
        ),
{
    let mut out: Vec<u8> = Vec::new();
    if cmd == CMD_HAVE {
        if blob.is_some() {
            out.push(1u8);
        } else {
            out.push(0u8);
        }
        assert(out@ =~= reply_frame(cmd, match blob { Some(d) => Some(d@), None => None }));
    } else if cmd == CMD_GET {
        match blob {
            Some(d) => {
                push_be(&mut out, ST_OK as u64, 4);
                push_be(&mut out, d.len() as u64, 8);
                out.extend_from_slice(d);
                assert(out@ =~= reply_frame(cmd, Some(d@)));
            },
            None => {
                push_be(&mut out, ST_NOT_FOUND as u64, 4);
                assert(out@ =~= reply_frame(cmd, None));
            },
        }
    } else {
        push_be(&mut out, ST_BAD as u64, 4);
        assert(out@ =~= reply_frame(cmd, match blob { Some(d) => Some(d@), None => None }));
    }
    out
}

/// What the answer byte of a Have reply says: present iff it is 1.
pub fn have_answer(answer: u8) -> (res: bool)
    ensures
        res == (answer == 1),
{
    answer == 1
}

} // verus!

verus! {

/// Why a GetBlob reply yields no blob.
#[derive(Debug, Clone, Copy, PartialEq, Eq)]
pub enum GetReplyError {
    /// Status "not found".
    NotFound,
    /// Any other status than OK or not found.
    BadStatus(u32),
    /// The announced length is over `MAX_REPLY_BLOB`.
    TooLarge(u64),
}

/// What to do after receiving some bytes of a GetBlob reply.
#[derive(Debug)]
pub enum GetReplyStep {
    /// Read exactly this many more bytes.
    Read(usize),
    /// The reply is complete.
    Done(Result<Vec<u8>, GetReplyError>),
}

/// The status of a reply whose first four bytes have arrived.
pub open spec fn reply_status(b: Seq<u8>) -> nat {
    be_value(b.subrange(0, 4))
}

/// The announced blob length of an OK reply whose first twelve bytes have arrived.
pub open spec fn reply_len(b: Seq<u8>) -> nat {
    be_value(b.subrange(4, 12))
}

/// The outcome of a GetBlob reply after receiving `b`: `None` while more must
/// be read.
pub open spec fn get_reply_outcome(b: Seq<u8>) -> Option<Result<Seq<u8>, GetReplyError>> {
    if b.len() < 4 {
        None
    } else if reply_status(b) == ST_NOT_FOUND as nat {
        Some(Err(GetReplyError::NotFound))
    } else if reply_status(b) != ST_OK as nat {
        Some(Err(GetReplyError::BadStatus(reply_status(b) as u32)))
    } else if b.len() < 12 {
        None
    } else if reply_len(b) > MAX_REPLY_BLOB as nat {
        Some(Err(GetReplyError::TooLarge(reply_len(b) as u64)))
    } else if b.len() < 12 + reply_len(b) {
        None
    } else {
        Some(Ok(b.subrange(12, 12 + reply_len(b) as int)))
    }
}

/// How many more bytes a client reads after receiving `b` while the
/// outcome is open: the status, then the length, then the blob.
pub open spec fn get_reply_need(b: Seq<u8>) -> int {
    if b.len() < 4 {
        4 - b.len()
    } else if b.len() < 12 {
        12 - b.len()
    } else {
        12 + reply_len(b) - b.len()
    }
}

/// The client's step on the GetBlob reply bytes received so far: read the
/// four-byte status; unless it is OK, stop with not found or bad status; read
/// the eight-byte length, refuse one over 3 MiB, then read the blob.
pub fn get_reply_step(received: &[u8]) -> (res: GetReplyStep)
    ensures
        get_reply_outcome(received@) is None ==> (res matches GetReplyStep::Read(k) && k
            == get_reply_need(received@)),
        get_reply_outcome(received@) matches Some(r) ==> (res matches GetReplyStep::Done(q) && match q {
            Ok(v) => r == Ok::<Seq<u8>, GetReplyError>(v@),
            Err(e) => r == Err::<Seq<u8>, GetReplyError>(e),
        }),
{
    let len = received.len();
    if len < 4 {
        return GetReplyStep::Read(4 - len);
    }
    let status = read_be(received, 0, 4);
    proof {
        lemma_be_bound(received@.subrange(0, 4));
        reveal_with_fuel(pow256, 5);
    }
    if status == ST_NOT_FOUND as u64 {
        return GetReplyStep::Done(Err(GetReplyError::NotFound));
    }
    if status != ST_OK as u64 {
        return GetReplyStep::Done(Err(GetReplyError::BadStatus(status as u32)));
    }
    if len < 12 {
        return GetReplyStep::Read(12 - len);
    }
    let n = read_be(received, 4, 8);
    if n > MAX_REPLY_BLOB {
        return GetReplyStep::Done(Err(GetReplyError::TooLarge(n)));
    }
    let n: usize = n as usize;
    if len - 12 < n {
        return GetReplyStep::Read(12 + n - len);
    }
    let mut blob: Vec<u8> = Vec::new();
    blob.extend_from_slice(&received[12..12 + n]);
    assert(blob@ =~= received@.subrange(12, 12 + n));
    GetReplyStep::Done(Ok(blob))
}

} // verus!

verus! {

/// A server reading the frame a client sent for `cmd` and `hash_hex` asks
/// for bytes only inside the frame, and once it has the whole frame it reads
/// the same command and the lowercased hash.
pub proof fn lemma_request_roundtrip(cmd: u8, hash_hex: Seq<char>)
    requires
        wire_hash(hash_hex).len() <= 255,
    ensures
        forall|k: int|
            0 <= k < request_frame(cmd, wire_hash(hash_hex)).len() ==> {
                let b = #[trigger] request_frame(cmd, wire_hash(hash_hex)).take(k);
                &&& request_need(b) > 0
                &&& k + request_need(b) <= request_frame(cmd, wire_hash(hash_hex)).len()
            },
        request_need(request_frame(cmd, wire_hash(hash_hex))) == 0,
        request_frame(cmd, wire_hash(hash_hex))[0] == cmd,
        valid_utf8(request_hash(request_frame(cmd, wire_hash(hash_hex)))),
        decode_utf8(request_hash(request_frame(cmd, wire_hash(hash_hex)))) == unicode_lower(hash_hex),
{
    let h = wire_hash(hash_hex);
    let f = request_frame(cmd, h);
    assert(f[1] == h.len());
    assert forall|k: int| 0 <= k < f.len() implies {
        let b = #[trigger] f.take(k);
        &&& request_need(b) > 0
        &&& k + request_need(b) <= f.len()
    } by {
        if k >= 2 {
            assert(f.take(k)[1] == h.len());
        }
    }
    assert(f.take(f.len() as int) =~= f);
    assert(request_hash(f) =~= h);
    vstd::utf8::encode_utf8_valid_utf8(unicode_lower(hash_hex));
    vstd::utf8::encode_utf8_decode_utf8(unicode_lower(hash_hex));
}

} // verus!

verus! {

/// A client reading the reply a server sent for GetBlob: for a blob of at most
/// `MAX_REPLY_BLOB` bytes it asks for bytes only inside the reply and, once it
/// has the whole reply, gets exactly that blob; a missing blob reads as not
/// found, and the reply to an unknown command as a bad status.
pub proof fn lemma_get_reply_roundtrip(d: Seq<u8>)
    requires
        d.len() <= MAX_REPLY_BLOB,
    ensures
        forall|k: int|
            0 <= k < reply_frame(CMD_GET, Some(d)).len() ==> {
                let b = #[trigger] reply_frame(CMD_GET, Some(d)).take(k);
                &&& get_reply_outcome(b) is None
                &&& get_reply_need(b) > 0
                &&& k + get_reply_need(b) <= reply_frame(CMD_GET, Some(d)).len()
            },
        get_reply_outcome(reply_frame(CMD_GET, Some(d))) == Some(
            Ok::<Seq<u8>, GetReplyError>(d),
        ),
        get_reply_outcome(reply_frame(CMD_GET, None)) == Some(
            Err::<Seq<u8>, GetReplyError>(GetReplyError::NotFound),
        ),
        forall|cmd: u8|
            cmd != CMD_HAVE && cmd != CMD_GET ==> get_reply_outcome(#[trigger] reply_frame(cmd, None))
                == Some(Err::<Seq<u8>, GetReplyError>(GetReplyError::BadStatus(ST_BAD))),
{
    reveal_with_fuel(pow256, 9);
    lemma_be_roundtrip(ST_OK as nat, 4);
    lemma_be_roundtrip(ST_NOT_FOUND as nat, 4);
    lemma_be_roundtrip(ST_BAD as nat, 4);
    lemma_be_roundtrip(d.len(), 8);
    let f = reply_frame(CMD_GET, Some(d));
    let s = be_bytes(ST_OK as nat, 4);
    let l = be_bytes(d.len(), 8);
    assert(f.subrange(0, 4) =~= s);
    assert(f.subrange(4, 12) =~= l);
    assert forall|k: int| 0 <= k < f.len() implies {
        let b = #[trigger] f.take(k);
        &&& get_reply_outcome(b) is None
        &&& get_reply_need(b) > 0
        &&& k + get_reply_need(b) <= f.len()
    } by {
        let b = f.take(k);
        if k >= 4 {
            assert(b.subrange(0, 4) =~= s);
        }
        if k >= 12 {
            assert(b.subrange(4, 12) =~= l);
        }
    }
    assert(f.subrange(12, 12 + d.len() as int) =~= d);
    assert(reply_frame(CMD_GET, None).subrange(0, 4) =~= be_bytes(ST_NOT_FOUND as nat, 4));
    assert forall|cmd: u8|
        cmd != CMD_HAVE && cmd != CMD_GET implies get_reply_outcome(
            #[trigger] reply_frame(cmd, None),
        ) == Some(Err::<Seq<u8>, GetReplyError>(GetReplyError::BadStatus(ST_BAD))) by {
        assert(reply_frame(cmd, None).subrange(0, 4) =~= be_bytes(ST_BAD as nat, 4));
    }
}

/// The answer byte of a Have reply says whether the blob was found.
pub proof fn lemma_have_reply_roundtrip(blob: Option<Seq<u8>>)
    ensures
        reply_frame(CMD_HAVE, blob).len() == 1,
        (reply_frame(CMD_HAVE, blob)[0] == 1) == (blob is Some),
{
}

} // verus!
