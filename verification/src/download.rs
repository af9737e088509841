//! Content integrity of shared files: a file imported for sharing gets the SHA-256
//! hash of its content in its content identifier, and a download is kept only where the
//! SHA-256 hash of the bytes received is that hash.
use vstd::prelude::*;

use crate::cid::{fresh_ulid, Cid};

verus! {

/// A SHA-256 hasher of `sha2`, absorbing bytes as they arrive. (Verus does not take the
/// declaration of `sha2::Sha256`: it is an alias of a generic wrapper whose bounds are
/// over `typenum` sizes.)
#[verifier::external_body]
pub struct Hasher {
    inner: sha2::Sha256,
}

/// The bytes a hasher has absorbed, in order.
pub uninterp spec fn absorbed(h: Hasher) -> Seq<u8>;

/// The SHA-256 digest of `data`.
pub uninterp spec fn sha256(data: Seq<u8>) -> Seq<u8>;

/// `sha2::Sha256::new()` (`Digest::new`): a hasher that has absorbed nothing.
#[verifier::external_body]
fn hasher_new() -> (h: Hasher)
    ensures
        absorbed(h) == Seq::<u8>::empty(),
{
    Hasher { inner: <sha2::Sha256 as sha2::Digest>::new() }
}

/// `Digest::update`: the hasher absorbs `data` after what it absorbed before.
#[verifier::external_body]
fn hasher_update(h: &mut Hasher, data: &[u8])
    ensures
        absorbed(*final(h)) == absorbed(*old(h)) + data@,
{
    sha2::Digest::update(&mut h.inner, data)
}

/// `Digest::finalize`: the SHA-256 digest of all the bytes the hasher absorbed.
#[verifier::external_body]
fn hasher_finalize(h: Hasher) -> (r: [u8; 32])
    ensures
        r@ == sha256(absorbed(h)),
{
    sha2::Digest::finalize(h.inner).into()
}

fn hash_eq(a: &[u8; 32], b: &[u8; 32]) -> (r: bool)
    ensures
        r == (a@ == b@),
{
    let mut i: usize = 0;
    while i < 32
        invariant
            i <= 32,
            a@.len() == 32,
            b@.len() == 32,
            forall|k: int| 0 <= k < i ==> a@[k] == b@[k],
        decreases 32 - i,
    {
        if a[i] != b[i] {
            return false;
        }
        i = i + 1;
    }
    assert(a@ =~= b@);
    true
}

/// A file being imported for sharing, hashed as it is read.
pub struct Import {
    hasher: Hasher,
}

impl Import {
    /// The bytes read so far, in order.
    pub closed spec fn content(&self) -> Seq<u8> {
        absorbed(self.hasher)
    }

    /// Nothing read yet.
    pub fn new() -> (r: Import)
        ensures
            r.content() == Seq::<u8>::empty(),
    {
        Import { hasher: hasher_new() }
    }

    /// The first `n` bytes of `buffer` were read.
    pub fn read(&mut self, buffer: &[u8], n: usize)
        requires
            n <= buffer@.len(),
        ensures
            final(self).content() == old(self).content() + buffer@.subrange(0, n as int),
    {
        let chunk = vstd::slice::slice_subrange(buffer, 0, n);
        hasher_update(&mut self.hasher, chunk);
    }

    /// The file was read to its end: its content identifier is a new ULID with the
    /// SHA-256 hash of the content.
    pub fn finish(self) -> (r: Cid)
        ensures
            r.hash@ == sha256(self.content()),
    {
        let hash = hasher_finalize(self.hasher);
        let id = fresh_ulid();
        Cid { id, hash }
    }
}

/// Why a download was thrown away.
#[derive(Debug, Clone, Copy, PartialEq, Eq)]
pub enum DownloadError {
    /// The bytes received do not have the content identifier's hash.
    HashMismatch { expected: [u8; 32], actual: [u8; 32] },
}

/// A download in progress: the bytes received so far are hashed as they arrive.
pub struct Download {
    hasher: Hasher,
    total_length: u64,
}

impl Download {
    /// The bytes received so far, in order.
    pub closed spec fn content(&self) -> Seq<u8> {
        absorbed(self.hasher)
    }

    /// The length of the file, as its provider announced it.
    pub closed spec fn total_length(&self) -> u64 {
        self.total_length
    }

    /// Nothing received yet of a file of `total_length` bytes.
    pub fn new(total_length: u64) -> (r: Download)
        ensures
            r.content() == Seq::<u8>::empty(),
            r.total_length() == total_length,
    {
        Download { hasher: hasher_new(), total_length }
    }

    /// A read filled `filled` of the caller's buffer, of which the bytes from `prev_len`
    /// on are new: they are hashed, and the progress reported is the filled length in
    /// hundredths of the file's length.
    pub fn on_read(&mut self, filled: &[u8], prev_len: usize) -> (progress: u64)
        requires
            prev_len <= filled@.len(),
            old(self).total_length() > 0,
            filled@.len() * 100 <= u64::MAX,
        ensures
            final(self).total_length() == old(self).total_length(),
            final(self).content() == old(self).content() + filled@.subrange(prev_len as int, filled@.len() as int),
            progress == (filled@.len() * 100) as nat / (old(self).total_length() as nat),
    {
        let progress = (filled.len() as u64) * 100 / self.total_length;
        let chunk = vstd::slice::slice_subrange(filled, prev_len, filled.len());
        hasher_update(&mut self.hasher, chunk);
        progress
    }

    /// The download ended: it is kept where the SHA-256 hash of all the bytes received
    /// is the hash of its content identifier, and thrown away where not.
    pub fn finish(self, cid: &Cid) -> (r: Result<(), DownloadError>)
        ensures
            r is Ok <==> sha256(self.content()) == cid.hash@,
            r matches Err(DownloadError::HashMismatch { expected, actual }) ==> expected == cid.hash && actual@ == sha256(self.content()),
    {
        let actual = hasher_finalize(self.hasher);
        if hash_eq(&actual, &cid.hash) {
            Ok(())
        } else {
            Err(DownloadError::HashMismatch { expected: cid.hash, actual })
        }
    }
}

/// A file downloaded unchanged is kept: the bytes received being those imported, their
/// hash is the one the import put in the content identifier.
pub proof fn lemma_unchanged_download_kept(imported: Seq<u8>, received: Seq<u8>, cid: Cid)
    requires
        cid.hash@ == sha256(imported),
        received == imported,
    ensures
        sha256(received) == cid.hash@,
{
}

} // verus!
