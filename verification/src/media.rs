//! Naming and typing of assembled media served by the localhost companion.

use vstd::prelude::*;
use vstd::utf8::*;
use vstd::string::*;
use crate::hexcodec::{hex_decode, hex_decode_spec};
use crate::text::{chars_of, push_char, utf8_lossy, utf8_to_string_lossy};

verus! {

/// The name of assembled media when its descriptor's file name is not hex.
pub open spec fn fallback_media_name() -> Seq<char> {
    "assembled.bin"@
}

/// The file name recorded in a descriptor: its hex decoded and read as UTF-8
/// (invalid sequences replaced); `assembled.bin` when it is not hex.
pub open spec fn sd_file_name(filename_hex: Seq<char>) -> Seq<char> {
    match hex_decode_spec(encode_utf8(filename_hex)) {
        Ok(b) => utf8_lossy(b),
        Err(_) => fallback_media_name(),
    }
}

/// The first sixteen bytes of `sd_hash` (all of it if shorter), as text.
pub open spec fn hash_prefix(sd_hash: Seq<char>) -> Seq<char> {
    let b = encode_utf8(sd_hash);
    decode_utf8(b.take(if b.len() < 16 { b.len() as int } else { 16 }))
}

/// `s` with each `/` and `\` replaced by `_`.
pub open spec fn without_separators(s: Seq<char>) -> Seq<char> {
    Seq::new(s.len(), |i: int| if s[i] == '/' || s[i] == '\\' { '_' } else { s[i] })
}

/// The cache file name of assembled media: the hash prefix, `_`, and the file
/// name with path separators replaced.
pub open spec fn cache_name(sd_hash: Seq<char>, filename_hex: Seq<char>) -> Seq<char> {
    hash_prefix(sd_hash) + seq!['_'] + without_separators(sd_file_name(filename_hex))
}

/// The names under which assembled media is reported and cached.
pub struct MediaNames {
    /// The file name from the descriptor.
    pub filename: String,
    /// The cache file name.
    pub safe_name: String,
}

/// The byte length at which `sd_hash` is cut for the cache name.
pub open spec fn prefix_cut(sd_hash: Seq<char>) -> int {
    let n = encode_utf8(sd_hash).len();
    if n < 16 { n as int } else { 16 }
}

/// Names the media assembled from a stream with descriptor hash `sd_hash` and
/// hex file name `filename_hex`.
pub fn media_names(sd_hash: &str, filename_hex: &str) -> (res: MediaNames)
    requires
        is_char_boundary(encode_utf8(sd_hash@), prefix_cut(sd_hash@)),
    ensures
        res.filename@ == sd_file_name(filename_hex@),
        res.safe_name@ == cache_name(sd_hash@, filename_hex@),
{
    let filename = match hex_decode(filename_hex.as_bytes()) {
        Ok(raw) => utf8_to_string_lossy(raw.as_slice()),
        Err(_) => String::from_str("assembled.bin"),
    };
    let n = sd_hash.as_bytes().len();
    let cut = if n < 16 { n } else { 16 };
    assert(sd_hash.spec_bytes() == encode_utf8(sd_hash@));
    assert(cut == prefix_cut(sd_hash@));
    let (prefix, _) = sd_hash.split_at(cut);
    proof {
        vstd::utf8::encode_utf8_decode_utf8(prefix@);
        assert(encode_utf8(sd_hash@).take(cut as int) =~= encode_utf8(sd_hash@).subrange(0, cut as int));
    }
    let mut safe_name = String::from_str(prefix);
    push_char(&mut safe_name, '_');
    let cs = chars_of(filename.as_str());
    let ghost start = safe_name@;
    let mut i: usize = 0;
    while i < cs.len()
        invariant
            i <= cs@.len(),
            cs@ == filename@,
            safe_name@ == start + without_separators(cs@).take(i as int),
        decreases cs@.len() - i,
    {
        let c = cs[i];
        if c == '/' || c == '\\' {
            push_char(&mut safe_name, '_');
        } else {
            push_char(&mut safe_name, c);
        }
        assert(without_separators(cs@).take(i + 1) =~= without_separators(cs@).take(i as int).push(
            without_separators(cs@)[i as int],
        ));
        i = i + 1;
    }
    assert(without_separators(cs@).take(cs@.len() as int) =~= without_separators(cs@));
    assert(safe_name@ =~= cache_name(sd_hash@, filename_hex@));
    MediaNames { filename, safe_name }
}

} // verus!

verus! {

/// A media name can be looked up in the cache: it holds no `..`, `/` or `\`.
pub open spec fn media_name_ok(name: Seq<char>) -> bool {
    &&& forall|i: int| 0 <= i < name.len() ==> #[trigger] name[i] != '/' && name[i] != '\\'
    &&& forall|i: int| 0 <= i < name.len() - 1 ==> !(#[trigger] name[i] == '.' && name[i + 1] == '.')
}

/// Whether a requested media name is safe to look up in the cache.
pub fn media_name_allowed(name: &str) -> (res: bool)
    ensures
        res == media_name_ok(name@),
{
    let cs = chars_of(name);
    let mut i: usize = 0;
    while i < cs.len()
        invariant
            cs@ == name@,
            i <= cs@.len(),
            forall|j: int| 0 <= j < i ==> #[trigger] cs@[j] != '/' && cs@[j] != '\\',
            forall|j: int| 0 <= j < i && j + 1 < cs@.len() ==> !(#[trigger] cs@[j] == '.' && cs@[j + 1] == '.'),
        decreases cs@.len() - i,
    {
        let c = cs[i];
        if c == '/' || c == '\\' {
            return false;
        }
        if c == '.' && i + 1 < cs.len() && cs[i + 1] == '.' {
            return false;
        }
        i = i + 1;
    }
    true
}

/// `name` ends with `suffix`.
pub open spec fn ends_with(name: Seq<char>, suffix: Seq<char>) -> bool {
    suffix.len() <= name.len() && name.subrange(name.len() - suffix.len(), name.len() as int) == suffix
}

/// Whether `name` ends with `suffix`.
fn has_suffix(name: &Vec<char>, suffix: &str) -> (res: bool)
    ensures
        res == ends_with(name@, suffix@),
{
    let ss = chars_of(suffix);
    if ss.len() > name.len() {
        return false;
    }
    let nl = name.len();
    let off = nl - ss.len();
    let mut i: usize = 0;
    while i < ss.len()
        invariant
            nl == name@.len(),
            ss@ == suffix@,
            ss@.len() <= name@.len(),
            off == name@.len() - ss@.len(),
            i <= ss@.len(),
            forall|j: int| 0 <= j < i ==> name@[off + j] == ss@[j],
        decreases ss@.len() - i,
    {
        if name[off + i] != ss[i] {
            assert(name@.subrange(off as int, name@.len() as int)[i as int] != suffix@[i as int]);
            return false;
        }
        i = i + 1;
    }
    assert(name@.subrange(off as int, name@.len() as int) =~= suffix@);
    true
}

/// The content type served for a media name, chosen by its extension.
pub open spec fn content_type_of(name: Seq<char>) -> Seq<char> {
    if ends_with(name, ".wav"@) {
        "audio/wav"@
    } else if ends_with(name, ".mp4"@) {
        "video/mp4"@
    } else if ends_with(name, ".webm"@) {
        "video/webm"@
    } else if ends_with(name, ".mp3"@) {
        "audio/mpeg"@
    } else {
        "application/octet-stream"@
    }
}

/// The content type served for a media name: WAV, MP4, WebM and MP3 by their
/// extension, anything else as an octet stream.
pub fn media_content_type(name: &str) -> (res: &'static str)
    ensures
        res@ == content_type_of(name@),
{
    let cs = chars_of(name);
    if has_suffix(&cs, ".wav") {
        "audio/wav"
    } else if has_suffix(&cs, ".mp4") {
        "video/mp4"
    } else if has_suffix(&cs, ".webm") {
        "video/webm"
    } else if has_suffix(&cs, ".mp3") {
        "audio/mpeg"
    } else {
        "application/octet-stream"
    }
}

} // verus!

verus! {

/// Cache names hold no path separator: the file name's separators are
/// replaced, and the hash prefix, for a hash of ASCII text without
/// separators (as every hash that passed verification is), is its first
/// sixteen characters.
pub proof fn lemma_cache_name_has_no_separator(sd_hash: Seq<char>, filename_hex: Seq<char>)
    requires
        is_ascii_chars(sd_hash),
        forall|i: int| 0 <= i < sd_hash.len() ==> #[trigger] sd_hash[i] != '/' && sd_hash[i] != '\\',
    ensures
        hash_prefix(sd_hash) == sd_hash.take(if sd_hash.len() < 16 { sd_hash.len() as int } else { 16 }),
        forall|i: int|
            0 <= i < cache_name(sd_hash, filename_hex).len() ==> #[trigger] cache_name(
                sd_hash,
                filename_hex,
            )[i] != '/' && cache_name(sd_hash, filename_hex)[i] != '\\',
{
    let k: int = if sd_hash.len() < 16 { sd_hash.len() as int } else { 16 };
    let p = sd_hash.take(k);
    assert(is_ascii_chars(p));
    is_ascii_chars_encode_utf8(sd_hash);
    is_ascii_chars_encode_utf8(p);
    assert(encode_utf8(sd_hash).take(k) =~= encode_utf8(p));
    encode_utf8_decode_utf8(p);
    let c = cache_name(sd_hash, filename_hex);
    let w = without_separators(sd_file_name(filename_hex));
    assert(c =~= p + seq!['_'] + w);
    assert forall|i: int| 0 <= i < c.len() implies #[trigger] c[i] != '/' && c[i] != '\\' by {
        if i < k {
            assert(c[i] == sd_hash[i]);
        } else if i > k {
            assert(c[i] == w[i - k - 1]);
        }
    }
}

} // verus!

verus! {

/// `s` holds `t` as a contiguous run.
pub open spec fn holds_run(s: Seq<char>, t: Seq<char>) -> bool {
    exists|i: int| 0 <= i && i + t.len() <= s.len() && #[trigger] s.subrange(i, i + t.len()) == t
}

/// A media name is refused exactly when it holds `/`, `\` or `..`: every
/// other name, spaces and any other characters included, is allowed.
pub proof fn lemma_media_name_refused_only_for_separators_and_dots(name: Seq<char>)
    ensures
        media_name_ok(name) <==> !name.contains('/') && !name.contains('\\') && !holds_run(
            name,
            seq!['.', '.'],
        ),
{
    let dd = seq!['.', '.'];
    if media_name_ok(name) {
        assert(!name.contains('/'));
        assert(!name.contains('\\'));
        if holds_run(name, dd) {
            let i = choose|i: int| 0 <= i && i + dd.len() <= name.len() && #[trigger] name.subrange(i, i + dd.len()) == dd;
            assert(name.subrange(i, i + 2)[0] == '.');
            assert(name.subrange(i, i + 2)[1] == '.');
            assert(name[i] == '.' && name[i + 1] == '.');
        }
    }
    if !name.contains('/') && !name.contains('\\') && !holds_run(name, dd) {
        assert forall|i: int| 0 <= i < name.len() - 1 implies !(#[trigger] name[i] == '.' && name[i + 1] == '.') by {
            if name[i] == '.' && name[i + 1] == '.' {
                assert(name.subrange(i, i + dd.len()) =~= dd);
                assert(holds_run(name, dd));
            }
        }
    }
}

/// Every cache name that `media_names` gives is allowed, for a descriptor
/// hash of ASCII text without separators or dots (as every hex hash is) and
/// a file name without `..`.
pub proof fn lemma_cache_name_allowed(sd_hash: Seq<char>, filename_hex: Seq<char>)
    requires
        is_ascii_chars(sd_hash),
        !sd_hash.contains('/') && !sd_hash.contains('\\') && !sd_hash.contains('.'),
        !holds_run(sd_file_name(filename_hex), seq!['.', '.']),
    ensures
        media_name_ok(cache_name(sd_hash, filename_hex)),
{
    let k: int = if sd_hash.len() < 16 { sd_hash.len() as int } else { 16 };
    assert forall|i: int| 0 <= i < sd_hash.len() implies #[trigger] sd_hash[i] != '/' && sd_hash[i] != '\\' by {
        if sd_hash[i] == '/' { assert(sd_hash.contains('/')); }
        if sd_hash[i] == '\\' { assert(sd_hash.contains('\\')); }
    }
    lemma_cache_name_has_no_separator(sd_hash, filename_hex);
    let f = sd_file_name(filename_hex);
    let w = without_separators(f);
    let c = cache_name(sd_hash, filename_hex);
    assert(c =~= sd_hash.take(k) + seq!['_'] + w);
    assert forall|i: int| 0 <= i < c.len() - 1 implies !(#[trigger] c[i] == '.' && c[i + 1] == '.') by {
        if i < k {
            assert(c[i] == sd_hash[i]);
            if sd_hash[i] == '.' { assert(sd_hash.contains('.')); }
        } else if i > k {
            assert(c[i] == w[i - k - 1]);
            assert(c[i + 1] == w[i - k]);
            if c[i] == '.' && c[i + 1] == '.' {
                assert(f[i - k - 1] == '.' && f[i - k] == '.');
                let dd = seq!['.', '.'];
                let j = i - k - 1;
                assert(f.subrange(j, j + dd.len()) =~= dd);
                assert(holds_run(f, dd));
            }
        }
    }
}

} // verus!
