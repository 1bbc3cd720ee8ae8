//! Assembling a stream on the client side: each content blob, fetched in
//! descriptor order, is checked against its hash and decrypted, and the
//! plaintexts are concatenated. The fetching itself is I/O; this module holds
//! the decisions between fetches.

use vstd::prelude::*;
use crate::digest::blob_hash_of;
use crate::lbry_blob::{
    decrypt_content_blob, decrypt_spec, hash_matches, verify_blob_hash, DecryptError,
    HashMismatch, SdBlobEntry, StreamDescriptor, StreamDescriptorView,
};
use crate::pack::{chunk_count, chunk_of, chunks_upto, lemma_chunks_cover, opens_to};
use crate::text::{ascii_lower_seq, unicode_lower};
use vstd::utf8::is_ascii_chars;

verus! {

/// Why a fetched content blob was refused.
#[derive(Debug)]
pub enum OpenError {
    /// Its bytes do not have the hash its entry names.
    Hash(HashMismatch),
    /// It does not decrypt under the stream key and its IV.
    Decrypt(DecryptError),
}

/// Checks a fetched content blob against its descriptor entry and decrypts it
/// under the hex stream key.
pub fn open_content_blob(raw: &[u8], entry: &SdBlobEntry, key_hex: &str) -> (res: Result<
    Vec<u8>,
    OpenError,
>)
    ensures
        !hash_matches(raw@, entry@.blob_hash) ==> (res matches Err(OpenError::Hash(e))
            && e.expected@ == unicode_lower(entry@.blob_hash) && e.got@ == blob_hash_of(raw@)
            && (is_ascii_chars(entry@.blob_hash) ==> e.expected@ == ascii_lower_seq(
                entry@.blob_hash,
            ))),
        hash_matches(raw@, entry@.blob_hash) ==> match decrypt_spec(raw@, key_hex@, entry@.iv) {
            Ok(p) => (res matches Ok(v) && v@ == p),
            Err(d) => (res matches Err(OpenError::Decrypt(d2)) && d2 == d),
        },
{
    match verify_blob_hash(raw, entry.blob_hash.as_str()) {
        Ok(()) => {},
        Err(e) => {
            return Err(OpenError::Hash(e));
        },
    }
    match decrypt_content_blob(raw, key_hex, entry.iv.as_str()) {
        Ok(p) => Ok(p),
        Err(d) => Err(OpenError::Decrypt(d)),
    }
}

/// The plaintext assembled from content blobs `raws`, taken as the first
/// blobs of `sd` in order and decrypted under `key`.
pub open spec fn fetched_plain(sd: StreamDescriptorView, key: Seq<char>, raws: Seq<Seq<u8>>) -> Seq<u8>
    decreases raws.len(),
{
    if raws.len() == 0 {
        Seq::empty()
    } else {
        fetched_plain(sd, key, raws.drop_last()) + decrypt_spec(
            raws.last(),
            key,
            sd.blobs[raws.len() - 1].iv,
        )->Ok_0
    }
}

/// The key a companion request asks for: none when it gives no key or an
/// empty one, else the key given.
pub fn requested_key(key: Option<String>) -> (res: Option<String>)
    ensures
        res is Some <==> (key matches Some(k) && k@.len() > 0),
        res matches Some(r) ==> key matches Some(k) && r@ == k@,
{
    match key {
        Some(k) => {
            if k.as_str().is_empty() {
                None
            } else {
                Some(k)
            }
        },
        None => None,
    }
}

/// The progress of fetching one stream: its descriptor, the stream key in use,
/// how many content blobs have been accepted, and their plaintext so far.
pub struct StreamFetch {
    pub sd: StreamDescriptor,
    pub key: String,
    pub next: usize,
    pub out: Vec<u8>,
    /// The content blobs accepted so far.
    pub accepted: Ghost<Seq<Seq<u8>>>,
}

impl StreamFetch {
    /// The state is consistent: no more blobs accepted than the descriptor
    /// lists, each accepted blob checked and decrypted, and the output their
    /// plaintexts in order.
    pub open spec fn wf(&self) -> bool {
        &&& self.next <= self.sd.blobs@.len()
        &&& self.accepted@.len() == self.next
        &&& forall|i: int|
            0 <= i < self.next ==> hash_matches(
                #[trigger] self.accepted@[i],
                self.sd@.blobs[i].blob_hash,
            ) && decrypt_spec(self.accepted@[i], self.key@, self.sd@.blobs[i].iv) is Ok
        &&& self.out@ == fetched_plain(self.sd@, self.key@, self.accepted@)
    }

    /// Starts fetching a stream; a given key replaces the descriptor's.
    pub fn new(sd: StreamDescriptor, key_override: Option<String>) -> (res: Self)
        ensures
            res.wf(),
            res.sd@ == sd@,
            res.key@ == (match key_override {
                Some(k) => k@,
                None => sd@.key,
            }),
            res.next == 0,
            res.accepted@.len() == 0,
            res.out@.len() == 0,
    {
        let key = match key_override {
            Some(k) => k,
            None => sd.key.clone(),
        };
        StreamFetch { sd, key, next: 0, out: Vec::new(), accepted: Ghost(Seq::empty()) }
    }

    /// Every listed content blob has been accepted.
    pub fn is_done(&self) -> (res: bool)
        requires
            self.wf(),
        ensures
            res == (self.next == self.sd@.blobs.len()),
    {
        self.next == self.sd.blobs.len()
    }

    /// The hash of the next content blob to fetch, if any is left.
    pub fn next_hash(&self) -> (res: Option<&str>)
        requires
            self.wf(),
        ensures
            self.next < self.sd@.blobs.len() ==> (res matches Some(h) && h@
                == self.sd@.blobs[self.next as int].blob_hash),
            self.next == self.sd@.blobs.len() ==> res is None,
    {
        if self.next < self.sd.blobs.len() {
            Some(self.sd.blobs[self.next].blob_hash.as_str())
        } else {
            None
        }
    }

    /// Takes the fetched bytes of the next content blob: checks them against
    /// its entry, decrypts them under the stream key and appends the plaintext.
    /// A refused blob leaves the state as it was.
    pub fn accept(&mut self, raw: &[u8]) -> (res: Result<(), OpenError>)
        requires
            old(self).wf(),
            old(self).next < old(self).sd@.blobs.len(),
        ensures
            final(self).wf(),
            final(self).sd@ == old(self).sd@,
            final(self).key@ == old(self).key@,
            !hash_matches(raw@, old(self).sd@.blobs[old(self).next as int].blob_hash) ==> (res matches Err(
                OpenError::Hash(e),
            ) && e.expected@ == unicode_lower(old(self).sd@.blobs[old(self).next as int].blob_hash)
                && e.got@ == blob_hash_of(raw@)),
            res is Ok <==> (hash_matches(raw@, old(self).sd@.blobs[old(self).next as int].blob_hash)
                && decrypt_spec(raw@, old(self).key@, old(self).sd@.blobs[old(self).next as int].iv) is Ok),
            res is Ok ==> final(self).next == old(self).next + 1 && final(self).out@ == old(self).out@
                + decrypt_spec(raw@, old(self).key@, old(self).sd@.blobs[old(self).next as int].iv)->Ok_0,
            res matches Err(OpenError::Decrypt(d)) ==> decrypt_spec(raw@, old(self).key@, old(self).sd@.blobs[old(self).next as int].iv) == Err::<Seq<u8>, DecryptError>(d),
            hash_matches(raw@, old(self).sd@.blobs[old(self).next as int].blob_hash) ==> (decrypt_spec(
                raw@,
                old(self).key@,
                old(self).sd@.blobs[old(self).next as int].iv,
            ) matches Err(d) ==> res == Err::<(), OpenError>(OpenError::Decrypt(d))),
            res is Ok ==> final(self).accepted@ == old(self).accepted@.push(raw@),
            res is Err ==> final(self).next == old(self).next && final(self).out@ == old(self).out@
                && final(self).accepted@ == old(self).accepted@,
    {
        let count = self.sd.blobs.len();
        assert(self.next < count);
        let r = open_content_blob(raw, &self.sd.blobs[self.next], self.key.as_str());
        let following: usize = self.next + 1;
        match r {
            Ok(p) => {
                self.out.extend_from_slice(p.as_slice());
                self.next = following;
                self.accepted = Ghost(self.accepted@.push(raw@));
                assert(self.accepted@.drop_last() =~= old(self).accepted@);
                assert(self.out@ =~= old(self).out@ + p@);
                Ok(())
            },
            Err(e) => Err(e),
        }
    }
}

} // verus!

verus! {

/// Fetching the content blobs of a packed stream in descriptor order gives back
/// the plaintext: if each fetched blob checks against its entry and decrypts
/// to its run of `plain`, the assembled output is `plain`.
pub proof fn lemma_fetch_of_packed(plain: Seq<u8>, sd: StreamDescriptorView, raws: Seq<Seq<u8>>)
    requires
        raws.len() == chunk_count(plain.len()),
        forall|i: int|
            0 <= i < raws.len() ==> opens_to(
                #[trigger] raws[i],
                sd.blobs[i],
                sd.key,
                chunk_of(plain, i),
            ),
    ensures
        fetched_plain(sd, sd.key, raws) == plain,
{
    lemma_fetch_prefix(plain, sd, raws, raws.len());
    assert(raws.take(raws.len() as int) =~= raws);
    lemma_chunks_cover(plain);
}

/// The first `k` fetched blobs assemble to the first `k` runs.
proof fn lemma_fetch_prefix(plain: Seq<u8>, sd: StreamDescriptorView, raws: Seq<Seq<u8>>, k: nat)
    requires
        k <= raws.len(),
        forall|i: int|
            0 <= i < raws.len() ==> opens_to(
                #[trigger] raws[i],
                sd.blobs[i],
                sd.key,
                chunk_of(plain, i),
            ),
    ensures
        fetched_plain(sd, sd.key, raws.take(k as int)) == chunks_upto(plain, k),
    decreases k,
{
    if k > 0 {
        lemma_fetch_prefix(plain, sd, raws, (k - 1) as nat);
        assert(raws.take(k as int).drop_last() =~= raws.take(k - 1));
        assert(opens_to(raws[k - 1], sd.blobs[k - 1], sd.key, chunk_of(plain, k - 1)));
    } else {
        assert(raws.take(0) =~= Seq::<Seq<u8>>::empty());
    }
}

} // verus!
