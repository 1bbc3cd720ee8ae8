//! The JSON text of a stream descriptor: compact, fields in declaration
//! order, strings escaped as JSON requires. The SHA-384 of these bytes is the
//! descriptor's `sd_hash`, so the exact bytes matter.

use vstd::prelude::*;
use vstd::utf8::*;
use crate::text::{push_char, chars_of, string_into_bytes};
use crate::lbry_blob::{SdBlobEntry, SdBlobEntryView, StreamDescriptor, StreamDescriptorView};

verus! {

/// The character of a decimal digit.
pub open spec fn decimal_digit(d: int) -> char {
    (d + 48) as char
}

/// Decimal text of a natural number, without leading zeros.
pub open spec fn decimal(n: nat) -> Seq<char>
    decreases n,
{
    if n < 10 {
        seq![decimal_digit(n as int)]
    } else {
        decimal(n / 10).push(decimal_digit((n % 10) as int))
    }
}

/// The JSON escape of one character inside a string literal.
pub open spec fn json_escape_char(c: char) -> Seq<char> {
    if c == '"' {
        seq!['\\', '"']
    } else if c == '\\' {
        seq!['\\', '\\']
    } else if c == '\x08' {
        seq!['\\', 'b']
    } else if c == '\t' {
        seq!['\\', 't']
    } else if c == '\n' {
        seq!['\\', 'n']
    } else if c == '\x0c' {
        seq!['\\', 'f']
    } else if c == '\r' {
        seq!['\\', 'r']
    } else if (c as u32) < 0x20 {
        seq![
            '\\',
            'u',
            '0',
            '0',
            crate::hexcodec::hex_digit((c as u32) as int / 16),
            crate::hexcodec::hex_digit((c as u32) as int % 16),
        ]
    } else {
        seq![c]
    }
}

/// The escaped contents of a JSON string literal.
pub open spec fn json_escape(s: Seq<char>) -> Seq<char>
    decreases s.len(),
{
    if s.len() == 0 {
        Seq::empty()
    } else {
        json_escape(s.drop_last()) + json_escape_char(s.last())
    }
}

/// A JSON string literal.
pub open spec fn json_str(s: Seq<char>) -> Seq<char> {
    seq!['"'] + json_escape(s) + seq!['"']
}

} // verus!

verus! {

/// The JSON object of one descriptor entry.
pub open spec fn entry_json(e: SdBlobEntryView) -> Seq<char> {
    "{\"blob_hash\":"@ + json_str(e.blob_hash) + ",\"iv\":"@ + json_str(e.iv) + ",\"length\":"@
        + decimal(e.length as nat) + "}"@
}

/// The JSON objects of the entries, separated by commas.
pub open spec fn entries_json(es: Seq<SdBlobEntryView>) -> Seq<char>
    decreases es.len(),
{
    if es.len() == 0 {
        Seq::empty()
    } else if es.len() == 1 {
        entry_json(es[0])
    } else {
        entries_json(es.drop_last()) + seq![','] + entry_json(es.last())
    }
}

/// The JSON text of a stream descriptor.
pub open spec fn sd_json(sd: StreamDescriptorView) -> Seq<char> {
    "{\"blobs\":["@ + entries_json(sd.blobs) + "],\"filename\":"@ + json_str(sd.filename)
        + ",\"key\":"@ + json_str(sd.key) + ",\"version\":"@ + decimal(sd.version as nat) + "}"@
}

/// Appends a literal piece of text.
fn push_lit(out: &mut String, lit: &str)
    ensures
        final(out)@ == old(out)@ + lit@,
{
    let cs = chars_of(lit);
    let mut i: usize = 0;
    while i < cs.len()
        invariant
            i <= cs@.len(),
            cs@ == lit@,
            out@ == old(out)@ + lit@.take(i as int),
        decreases cs@.len() - i,
    {
        push_char(out, cs[i]);
        assert(lit@.take(i + 1) == lit@.take(i as int).push(lit@[i as int]));
        i = i + 1;
    }
    assert(lit@.take(cs@.len() as int) == lit@);
}

/// Appends the decimal text of `n`.
fn push_decimal(out: &mut String, n: u64)
    ensures
        final(out)@ == old(out)@ + decimal(n as nat),
    decreases n,
{
    if n >= 10 {
        push_decimal(out, n / 10);
    }
    let d: u8 = (n % 10) as u8;
    let c: char = (d + 48) as char;
    push_char(out, c);
}

} // verus!

verus! {

/// The lowercase hex digit character of a value below sixteen.
fn hex_digit_char(n: u8) -> (c: char)
    requires
        n < 16,
    ensures
        c == crate::hexcodec::hex_digit(n as int),
{
    if n < 10 {
        (n + 48) as char
    } else {
        (n + 87) as char
    }
}

/// Appends the JSON escape of one character.
fn push_escaped_char(out: &mut String, c: char)
    ensures
        final(out)@ == old(out)@ + json_escape_char(c),
{
    let u: u32 = c as u32;
    if c == '"' {
        push_char(out, '\\');
        push_char(out, '"');
    } else if c == '\\' {
        push_char(out, '\\');
        push_char(out, '\\');
    } else if c == '\x08' {
        push_char(out, '\\');
        push_char(out, 'b');
    } else if c == '\t' {
        push_char(out, '\\');
        push_char(out, 't');
    } else if c == '\n' {
        push_char(out, '\\');
        push_char(out, 'n');
    } else if c == '\x0c' {
        push_char(out, '\\');
        push_char(out, 'f');
    } else if c == '\r' {
        push_char(out, '\\');
        push_char(out, 'r');
    } else if u < 0x20 {
        let b: u8 = u as u8;
        push_char(out, '\\');
        push_char(out, 'u');
        push_char(out, '0');
        push_char(out, '0');
        push_char(out, hex_digit_char(b / 16));
        push_char(out, hex_digit_char(b % 16));
    } else {
        push_char(out, c);
    }
    assert(out@ =~= old(out)@ + json_escape_char(c));
}

/// Appends a JSON string literal holding `s`.
fn push_json_str(out: &mut String, s: &str)
    ensures
        final(out)@ == old(out)@ + json_str(s@),
{
    let cs = chars_of(s);
    push_char(out, '"');
    let ghost start = out@;
    let mut i: usize = 0;
    while i < cs.len()
        invariant
            i <= cs@.len(),
            cs@ == s@,
            start == old(out)@.push('"'),
            out@ == start + json_escape(s@.take(i as int)),
        decreases cs@.len() - i,
    {
        push_escaped_char(out, cs[i]);
        assert(s@.take(i + 1).drop_last() == s@.take(i as int));
        i = i + 1;
    }
    assert(s@.take(cs@.len() as int) == s@);
    push_char(out, '"');
    assert(out@ =~= old(out)@ + json_str(s@));
}

} // verus!

verus! {

/// Appends the JSON object of one descriptor entry.
fn push_entry(out: &mut String, e: &SdBlobEntry)
    ensures
        final(out)@ == old(out)@ + entry_json(e@),
{
    push_lit(out, "{\"blob_hash\":");
    push_json_str(out, e.blob_hash.as_str());
    push_lit(out, ",\"iv\":");
    push_json_str(out, e.iv.as_str());
    push_lit(out, ",\"length\":");
    push_decimal(out, e.length);
    push_lit(out, "}");
    assert(out@ =~= old(out)@ + entry_json(e@));
}

/// The JSON text of a stream descriptor, as UTF-8 bytes: compact, with the
/// fields in declaration order (`blobs`, `filename`, `key`, `version`; in each
/// entry `blob_hash`, `iv`, `length`).
pub fn encode_sd_json(sd: &StreamDescriptor) -> (res: Vec<u8>)
    ensures
        res@ == encode_utf8(sd_json(sd@)),
{
    let mut out = String::new();
    push_lit(&mut out, "{\"blobs\":[");
    let ghost start = out@;
    let mut i: usize = 0;
    while i < sd.blobs.len()
        invariant
            i <= sd.blobs@.len(),
            start == "{\"blobs\":["@,
            out@ == start + entries_json(sd@.blobs.take(i as int)),
        decreases sd.blobs@.len() - i,
    {
        let ghost before = out@;
        if i > 0 {
            push_char(&mut out, ',');
        }
        push_entry(&mut out, &sd.blobs[i]);
        proof {
            let es = sd@.blobs.take(i + 1);
            assert(es.drop_last() =~= sd@.blobs.take(i as int));
            assert(es.last() == sd.blobs@[i as int]@);
            if i == 0 {
                assert(sd@.blobs.take(0) =~= Seq::<SdBlobEntryView>::empty());
            }
        }
        i = i + 1;
    }
    assert(sd@.blobs.take(sd.blobs@.len() as int) =~= sd@.blobs);
    push_lit(&mut out, "],\"filename\":");
    push_json_str(&mut out, sd.filename.as_str());
    push_lit(&mut out, ",\"key\":");
    push_json_str(&mut out, sd.key.as_str());
    push_lit(&mut out, ",\"version\":");
    push_decimal(&mut out, sd.version as u64);
    push_lit(&mut out, "}");
    assert(out@ =~= sd_json(sd@));
    string_into_bytes(out)
}

} // verus!

verus! {

/// The entry objects of a descriptor are separated by commas: splitting the
/// entries anywhere between two of them splits their JSON at a comma.
pub proof fn lemma_entries_split(es: Seq<SdBlobEntryView>, k: int)
    requires
        0 < k < es.len(),
    ensures
        entries_json(es) == entries_json(es.take(k)) + seq![','] + entries_json(es.skip(k)),
    decreases es.len(),
{
    let n = es.len() as int;
    let last = es.last();
    let init = es.drop_last();
    assert(init =~= es.take(n - 1));
    if k == n - 1 {
        assert(es.skip(k) =~= seq![last]);
        assert(entries_json(seq![last]) == entry_json(last));
    } else {
        lemma_entries_split(init, k);
        assert(init.take(k) =~= es.take(k));
        let tail = es.skip(k);
        assert(tail.len() >= 2);
        assert(tail.drop_last() =~= init.skip(k));
        assert(tail.last() == last);
        assert(entries_json(tail) == entries_json(tail.drop_last()) + seq![','] + entry_json(last));
        assert(entries_json(es) == entries_json(init) + seq![','] + entry_json(last));
        assert(entries_json(es) =~= entries_json(es.take(k)) + seq![','] + entries_json(es.skip(k)));
    }
}

/// The JSON of the entries is the entry objects, in order, each but the
/// first preceded by a comma: it is the JSON of the first entries, a comma,
/// and the object of the next entry, for every non-empty prefix.
pub proof fn lemma_entries_each_separated(es: Seq<SdBlobEntryView>, k: int)
    requires
        0 < k < es.len(),
    ensures
        entries_json(es.take(k + 1)) == entries_json(es.take(k)) + seq![','] + entry_json(es[k]),
        entries_json(es.take(1)) == entry_json(es[0]),
{
    lemma_entries_split(es.take(k + 1), k);
    assert(es.take(k + 1).take(k) =~= es.take(k));
    assert(es.take(k + 1).skip(k) =~= seq![es[k]]);
    assert(es.take(1) =~= seq![es[0]]);
}

} // verus!
