//! Small facts about text: characters of a string, ASCII case folding,
//! Unicode lowercase, trimming and UTF-8 decoding.

use vstd::prelude::*;
use vstd::utf8::*;

verus! {

/// Appends one character to a string (`String::push`).
#[verifier::external_body]
pub(crate) fn push_char(s: &mut String, c: char)
    ensures
        final(s)@ == old(s)@.push(c),
{
    s.push(c)
}

/// The characters of a string slice, in order.
pub fn chars_of(s: &str) -> (res: Vec<char>)
    ensures
        res@ == s@,
{
    let mut res: Vec<char> = Vec::new();
    for c in it: s.chars()
        invariant
            res@ == it.seq().take(it.index() as int),
    {
        res.push(c);
    }
    res
}


/// ASCII case folding of one character: `A`-`Z` become `a`-`z`, all else stays.
pub open spec fn ascii_lower(c: char) -> char {
    if 'A' <= c <= 'Z' {
        ((c as u32) + 32) as char
    } else {
        c
    }
}

/// ASCII case folding of every character of a text.
pub open spec fn ascii_lower_seq(s: Seq<char>) -> Seq<char> {
    Seq::new(s.len(), |i: int| ascii_lower(s[i]))
}

/// ASCII upper-casing of one character: `a`-`z` become `A`-`Z`, all else stays.
pub open spec fn ascii_upper(c: char) -> char {
    if 'a' <= c <= 'z' {
        ((c as u32) - 32) as char
    } else {
        c
    }
}

/// ASCII upper-casing of every character of a text.
pub open spec fn ascii_upper_seq(s: Seq<char>) -> Seq<char> {
    Seq::new(s.len(), |i: int| ascii_upper(s[i]))
}

/// Upper-casing ASCII text keeps it ASCII and does not change its ASCII
/// case folding.
pub proof fn lemma_ascii_upper(s: Seq<char>)
    ensures
        is_ascii_chars(s) ==> is_ascii_chars(ascii_upper_seq(s)),
        ascii_lower_seq(ascii_upper_seq(s)) == ascii_lower_seq(s),
{
    assert(ascii_lower_seq(ascii_upper_seq(s)) =~= ascii_lower_seq(s));
}

/// ASCII case folding of one character (`char::to_ascii_lowercase`).
pub fn to_ascii_lower(c: char) -> (res: char)
    ensures
        res == ascii_lower(c),
{
    if 'A' <= c && c <= 'Z' {
        let u: u8 = (c as u32 + 32) as u8;
        u as char
    } else {
        c
    }
}

/// The Unicode lowercase of a text.
pub uninterp spec fn unicode_lower(s: Seq<char>) -> Seq<char>;

/// Calls `str::to_lowercase`: the Unicode lowercase of `s`, which on ASCII text
/// maps `A`-`Z` to `a`-`z` and keeps every other character.
#[verifier::external_body]
pub(crate) fn to_lowercase(s: &str) -> (res: String)
    ensures
        res@ == unicode_lower(s@),
        is_ascii_chars(s@) ==> res@ == ascii_lower_seq(s@),
{
    s.to_lowercase()
}

/// A character with the Unicode `White_Space` property (`char::is_whitespace`).
pub open spec fn is_white_space(c: char) -> bool {
    let u = c as u32;
    ||| 0x09 <= u <= 0x0d
    ||| u == 0x20
    ||| u == 0x85
    ||| u == 0xa0
    ||| u == 0x1680
    ||| 0x2000 <= u <= 0x200a
    ||| u == 0x2028
    ||| u == 0x2029
    ||| u == 0x202f
    ||| u == 0x205f
    ||| u == 0x3000
}

/// The number of white-space characters at the start of `s`.
pub open spec fn leading_white(s: Seq<char>) -> nat
    decreases s.len(),
{
    if s.len() > 0 && is_white_space(s[0]) {
        1 + leading_white(s.drop_first())
    } else {
        0
    }
}

/// The number of white-space characters at the end of `s`.
pub open spec fn trailing_white(s: Seq<char>) -> nat
    decreases s.len(),
{
    if s.len() > 0 && is_white_space(s.last()) {
        1 + trailing_white(s.drop_last())
    } else {
        0
    }
}

/// `s` without its leading and trailing white space.
pub open spec fn trim_spec(s: Seq<char>) -> Seq<char> {
    let t = s.skip(leading_white(s) as int);
    t.take(t.len() - trailing_white(t))
}

/// Calls `str::trim`: `s` with leading and trailing white space removed, white
/// space being the characters with the Unicode `White_Space` property.
#[verifier::external_body]
pub(crate) fn trim(s: &str) -> (res: &str)
    ensures
        res@ == trim_spec(s@),
{
    s.trim()
}

/// A text with no white-space character is its own trim.
pub proof fn lemma_trim_no_white(s: Seq<char>)
    requires
        forall|i: int| 0 <= i < s.len() ==> !is_white_space(#[trigger] s[i]),
    ensures
        trim_spec(s) == s,
{
    if s.len() > 0 {
        assert(!is_white_space(s[0]));
        assert(!is_white_space(s[s.len() - 1]));
    }
    assert(s.skip(0) =~= s);
    assert(s.take(s.len() as int) =~= s);
}

/// White space in front adds to the leading white-space count.
pub proof fn lemma_leading_white_concat(w: Seq<char>, r: Seq<char>)
    requires
        forall|i: int| 0 <= i < w.len() ==> is_white_space(#[trigger] w[i]),
    ensures
        leading_white(w + r) == w.len() + leading_white(r),
    decreases w.len(),
{
    if w.len() > 0 {
        assert((w + r).drop_first() =~= w.drop_first() + r);
        assert((w + r)[0] == w[0]);
        lemma_leading_white_concat(w.drop_first(), r);
    } else {
        assert(w + r =~= r);
    }
}

/// White space behind adds to the trailing white-space count.
pub proof fn lemma_trailing_white_concat(r: Seq<char>, w: Seq<char>)
    requires
        forall|i: int| 0 <= i < w.len() ==> is_white_space(#[trigger] w[i]),
    ensures
        trailing_white(r + w) == trailing_white(r) + w.len(),
    decreases w.len(),
{
    if w.len() > 0 {
        assert((r + w).drop_last() =~= r + w.drop_last());
        assert((r + w).last() == w.last());
        lemma_trailing_white_concat(r, w.drop_last());
    } else {
        assert(r + w =~= r);
    }
}

/// Trimming white space from around a text with no white space gives the text.
pub proof fn lemma_trim_around(w1: Seq<char>, t: Seq<char>, w2: Seq<char>)
    requires
        forall|i: int| 0 <= i < w1.len() ==> is_white_space(#[trigger] w1[i]),
        forall|i: int| 0 <= i < w2.len() ==> is_white_space(#[trigger] w2[i]),
        forall|i: int| 0 <= i < t.len() ==> !is_white_space(#[trigger] t[i]),
    ensures
        trim_spec(w1 + t + w2) == t,
{
    let s = w1 + t + w2;
    assert(s =~= w1 + (t + w2));
    lemma_leading_white_concat(w1, t + w2);
    if t.len() > 0 {
        assert((t + w2)[0] == t[0]);
        assert(leading_white(t + w2) == 0);
        let rest = s.skip(leading_white(s) as int);
        assert(rest =~= t + w2);
        lemma_trailing_white_concat(t, w2);
        assert(!is_white_space(t.last()));
        assert(rest.take(rest.len() - trailing_white(rest)) =~= t);
    } else {
        assert(t + w2 =~= w2 + Seq::<char>::empty());
        lemma_leading_white_concat(w2, Seq::<char>::empty());
        let rest = s.skip(leading_white(s) as int);
        assert(rest =~= t);
        assert(rest.take(rest.len() - trailing_white(rest)) =~= t);
    }
}

/// Calls `String::from_utf8`: the text that `bytes` encode when they are
/// valid UTF-8, and `None` when they are not.
#[verifier::external_body]
pub(crate) fn utf8_to_string(bytes: Vec<u8>) -> (res: Option<String>)
    ensures
        res is Some <==> valid_utf8(bytes@),
        res matches Some(s) ==> s@ == decode_utf8(bytes@),
{
    String::from_utf8(bytes).ok()
}

/// The text of a byte string with each invalid UTF-8 sequence replaced by U+FFFD.
pub uninterp spec fn utf8_lossy(bytes: Seq<u8>) -> Seq<char>;

/// Calls `String::from_utf8_lossy`: the text that `bytes` encode, with each
/// invalid UTF-8 sequence replaced by U+FFFD; on valid UTF-8 it is the decoded text.
#[verifier::external_body]
pub(crate) fn utf8_to_string_lossy(bytes: &[u8]) -> (res: String)
    ensures
        res@ == utf8_lossy(bytes@),
        valid_utf8(bytes@) ==> res@ == decode_utf8(bytes@),
{
    String::from_utf8_lossy(bytes).to_string()
}

/// The UTF-8 bytes of a string (`String::into_bytes`).
#[verifier::external_body]
pub(crate) fn string_into_bytes(s: String) -> (res: Vec<u8>)
    ensures
        res@ == encode_utf8(s@),
{
    s.into_bytes()
}

} // verus!
