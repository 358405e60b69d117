//! The backup engine: chunks file contents into fixed-size blocks, hashes
//! the whole file and each block, and compresses and encrypts block
//! payloads.  Positional incremental diffs between block-digest lists live
//! here too.

use vstd::prelude::*;

use crate::chunks::chunks_of;
use crate::chunks::split_chunks;
use crate::crypto::decrypt_spec;
use crate::crypto::digest_of;
use crate::crypto::AeadAlgorithm;
use crate::crypto::Crypto;
use crate::crypto::CryptoError;

verus! {

/// Metadata captured beside a file's contents at backup time.  The
/// modification time is seconds since the epoch.
#[derive(Clone, Copy, Debug, PartialEq, Eq, Structural)]
pub struct FileMetadata {
    pub size: u64,
    pub permissions: u32,
    pub modified: u64,
}

/// One point-in-time backup of one file: a version number (assigned by the
/// version manager; 0 until then), a timestamp in seconds since the epoch,
/// the whole-file digest, the ordered block digests, and the metadata.
#[derive(Debug)]
pub struct BackupVersion {
    pub version: u64,
    pub timestamp: u64,
    pub file_hash: String,
    pub block_hashes: Vec<String>,
    pub metadata: FileMetadata,
}

/// The mathematical content of a `BackupVersion`.
#[verifier::ext_equal]
pub struct VersionView {
    pub version: u64,
    pub timestamp: u64,
    pub file_hash: Seq<char>,
    pub block_hashes: Seq<Seq<char>>,
    pub metadata: FileMetadata,
}

impl View for BackupVersion {
    type V = VersionView;

    open spec fn view(&self) -> VersionView {
        VersionView {
            version: self.version,
            timestamp: self.timestamp,
            file_hash: self.file_hash@,
            block_hashes: self.block_hashes.deep_view(),
            metadata: self.metadata,
        }
    }
}

impl Clone for BackupVersion {
    fn clone(&self) -> (r: Self)
        ensures
            r@ =~= self@,
    {
        let mut block_hashes: Vec<String> = Vec::new();
        let mut i: usize = 0;
        while i < self.block_hashes.len()
            invariant
                i <= self.block_hashes@.len(),
                block_hashes@ =~= self.block_hashes@.take(i as int),
            decreases self.block_hashes@.len() - i,
        {
            block_hashes.push(self.block_hashes[i].clone());
            i = i + 1;
        }
        proof {
            assert(block_hashes@ =~= self.block_hashes@);
            assert(block_hashes.deep_view() =~= self.block_hashes.deep_view());
        }
        BackupVersion {
            version: self.version,
            timestamp: self.timestamp,
            file_hash: self.file_hash.clone(),
            block_hashes,
            metadata: self.metadata,
        }
    }
}

/// The digests of the blocks of `data` at block size `bs`, in order.
pub open spec fn block_digests(data: Seq<u8>, bs: nat) -> Seq<Seq<char>> {
    chunks_of(data, bs).map(|i: int, c: Seq<u8>| digest_of(c))
}

/// Whether block `i` of `cur` counts as changed against the previous block
/// digests `prev`: it has no previous entry at position `i`, or the digest
/// there differs.  This is a positional comparison: a shifted boundary marks
/// every following block changed.
pub open spec fn block_changed(cur: Seq<u8>, bs: nat, prev: Seq<Seq<char>>, i: int) -> bool {
    i >= prev.len() || block_digests(cur, bs)[i] != prev[i]
}

/// Chunks, hashes and seals file contents.
pub struct BackupEngine {
    crypto: Crypto,
    block_size: usize,
}

impl BackupEngine {
    pub closed spec fn spec_block_size(self) -> nat {
        self.block_size as nat
    }

    pub closed spec fn spec_algorithm(self) -> AeadAlgorithm {
        self.crypto.spec_algorithm()
    }

    /// An engine that chunks at `block_size` and seals with AES-256-GCM.
    /// A block size of zero would make chunking meaningless, so it is
    /// excluded.
    pub fn new(block_size: usize) -> (r: Self)
        requires
            block_size >= 1,
        ensures
            r.spec_block_size() == block_size,
            r.spec_algorithm() == AeadAlgorithm::Aes256Gcm,
    {
        BackupEngine { crypto: Crypto::new(), block_size }
    }

    pub fn block_size(&self) -> (r: usize)
        ensures
            r == self.spec_block_size(),
    {
        self.block_size
    }

    /// The digest of each block of `data`, in block order; every digest is
    /// 64 hex characters.
    pub fn create_block_hashes(&self, data: &Vec<u8>) -> (r: Vec<String>)
        requires
            self.spec_block_size() >= 1,
        ensures
            r.deep_view() =~= block_digests(data@, self.spec_block_size()),
            forall|i: int| 0 <= i < r@.len() ==> (#[trigger] r@[i])@.len() == 64 && r@[i].is_ascii(),
    {
        let chunks = split_chunks(data, self.block_size);
        let ghost spec_chunks = chunks_of(data@, self.spec_block_size());
        let mut r: Vec<String> = Vec::new();
        let mut i: usize = 0;
        while i < chunks.len()
            invariant
                i <= chunks@.len(),
                crate::chunks::views_of(chunks@) =~= spec_chunks,
                r.deep_view() =~= block_digests_prefix(spec_chunks, i as int),
                forall|j: int|
                    0 <= j < r@.len() ==> (#[trigger] r@[j])@.len() == 64 && r@[j].is_ascii(),
            decreases chunks@.len() - i,
        {
            let ghost prev = r.deep_view();
            let h = self.crypto.hash(&chunks[i]);
            proof {
                assert(chunks@[i as int]@ == spec_chunks[i as int]);
            }
            r.push(h);
            proof {
                assert(r.deep_view() =~= prev.push(h@));
                assert(r.deep_view() =~= block_digests_prefix(spec_chunks, i + 1));
            }
            i = i + 1;
        }
        proof {
            assert(block_digests_prefix(spec_chunks, spec_chunks.len() as int) =~= block_digests(
                data@,
                self.spec_block_size(),
            ));
        }
        r
    }

    /// A backup version of `data` as observed at `timestamp`: whole-file
    /// digest, block digests in order, and the given metadata.  The version
    /// number is left 0 as a placeholder; the version manager assigns the
    /// real one.
    pub fn create_backup(&self, data: &Vec<u8>, timestamp: u64, metadata: FileMetadata) -> (r:
        BackupVersion)
        requires
            self.spec_block_size() >= 1,
        ensures
            r.version == 0,
            r.timestamp == timestamp,
            r.file_hash@ == digest_of(data@),
            r.block_hashes.deep_view() =~= block_digests(data@, self.spec_block_size()),
            r.metadata == metadata,
            forall|i: int|
                0 <= i < r.block_hashes@.len() ==> (#[trigger] r.block_hashes@[i])@.len() == 64
                    && r.block_hashes@[i].is_ascii(),
    {
        let file_hash = self.crypto.hash(data);
        let block_hashes = self.create_block_hashes(data);
        BackupVersion { version: 0, timestamp, file_hash, block_hashes, metadata }
    }

    /// Seals one block payload under `key` (fresh nonce, `nonce ||
    /// ciphertext` layout); decrypting the result with the same key yields
    /// the payload again.
    pub fn encrypt_block(&self, block: &Vec<u8>, key: &Vec<u8>) -> (r: Result<Vec<u8>, CryptoError>)
        ensures
            r matches Ok(c) ==> decrypt_spec(self.spec_algorithm(), key@, c@) == Ok::<
                Seq<u8>,
                CryptoError,
            >(block@),
            key@.len() != self.spec_algorithm().spec_key_len() ==> r is Err,
    {
        self.crypto.encrypt(block, key)
    }

    /// Opens one sealed block payload; returns the plaintext exactly when
    /// the payload frames a nonce, the key has the scheme's size and
    /// authentication succeeds.
    pub fn decrypt_block(&self, encrypted_block: &Vec<u8>, key: &Vec<u8>) -> (r: Result<
        Vec<u8>,
        CryptoError,
    >)
        ensures
            ({
                let s = decrypt_spec(self.spec_algorithm(), key@, encrypted_block@);
                match r {
                    Ok(p) => s == Ok::<Seq<u8>, CryptoError>(p@),
                    Err(e) => s == Err::<Seq<u8>, CryptoError>(e),
                }
            }),
    {
        self.crypto.decrypt(encrypted_block, key)
    }

    /// The positional incremental diff: the indices of the blocks of
    /// `current_data` that have no positional counterpart in
    /// `previous_blocks` or whose digest differs from it, in increasing
    /// order, each exactly once (see `lemma_changed_indices_spec`).
    pub fn calculate_incremental_changes(
        &self,
        current_data: &Vec<u8>,
        previous_blocks: &Vec<String>,
    ) -> (r: Vec<usize>)
        requires
            self.spec_block_size() >= 1,
        ensures
            r@ == changed_indices(
                current_data@,
                self.spec_block_size(),
                previous_blocks.deep_view(),
                block_digests(current_data@, self.spec_block_size()).len(),
            ),
    {
        let current_hashes = self.create_block_hashes(current_data);
        let ghost cur = current_data@;
        let ghost bs = self.spec_block_size();
        let ghost prev = previous_blocks.deep_view();
        let mut r: Vec<usize> = Vec::new();
        let mut i: usize = 0;
        while i < current_hashes.len()
            invariant
                i <= current_hashes@.len(),
                current_hashes.deep_view() =~= block_digests(cur, bs),
                cur == current_data@,
                bs == self.spec_block_size(),
                prev == previous_blocks.deep_view(),
                r@ =~= changed_indices(cur, bs, prev, i as nat),
            decreases current_hashes@.len() - i,
        {
            let changed = if i >= previous_blocks.len() {
                true
            } else {
                let same = current_hashes[i] == previous_blocks[i];
                proof {
                    assert(current_hashes.deep_view()[i as int] == current_hashes@[i as int]@);
                    assert(previous_blocks.deep_view()[i as int] == previous_blocks@[i as int]@);
                }
                !same
            };
            proof {
                assert(changed == block_changed(cur, bs, prev, i as int));
            }
            if changed {
                r.push(i);
            }
            i = i + 1;
        }
        r
    }

    /// Compresses a block payload; the result is a frame that
    /// decompression inverts.
    pub fn compress(&self, data: &Vec<u8>) -> (r: Result<Vec<u8>, CryptoError>)
        ensures
            r matches Ok(c) ==> crate::crypto::decompress_of(c@) == Some(data@),
    {
        crate::crypto::zstd_compress(data)
    }

    /// Decompresses a block payload; succeeds exactly on well-formed
    /// frames.
    pub fn decompress(&self, compressed: &Vec<u8>) -> (r: Result<Vec<u8>, CryptoError>)
        ensures
            match r {
                Ok(p) => crate::crypto::decompress_of(compressed@) == Some(p@),
                Err(_) => crate::crypto::decompress_of(compressed@) is None,
            },
    {
        crate::crypto::zstd_decompress(compressed)
    }
}

/// The digests of the first `n` chunks.
pub open spec fn block_digests_prefix(chunks: Seq<Seq<u8>>, n: int) -> Seq<Seq<char>> {
    chunks.take(n).map(|i: int, c: Seq<u8>| digest_of(c))
}

/// The changed block indices below `n`, in increasing order.
pub open spec fn changed_indices(cur: Seq<u8>, bs: nat, prev: Seq<Seq<char>>, n: nat) -> Seq<usize>
    decreases n,
{
    if n == 0 {
        Seq::empty()
    } else {
        let p = changed_indices(cur, bs, prev, (n - 1) as nat);
        if block_changed(cur, bs, prev, n - 1) {
            p.push((n - 1) as usize)
        } else {
            p
        }
    }
}

/// The incremental diff lists exactly the changed block indices: each listed
/// index is below `n` and changed, every changed index below `n` is listed,
/// and the list is strictly increasing (so no index repeats).
pub proof fn lemma_changed_indices_spec(cur: Seq<u8>, bs: nat, prev: Seq<Seq<char>>, n: nat)
    requires
        n <= usize::MAX,
    ensures
        forall|k1: int, k2: int|
            0 <= k1 < k2 < changed_indices(cur, bs, prev, n).len() ==> changed_indices(
                cur,
                bs,
                prev,
                n,
            )[k1] < changed_indices(cur, bs, prev, n)[k2],
        forall|k: int|
            0 <= k < changed_indices(cur, bs, prev, n).len() ==> (#[trigger] changed_indices(
                cur,
                bs,
                prev,
                n,
            )[k]) < n && block_changed(cur, bs, prev, changed_indices(cur, bs, prev, n)[k] as int),
        forall|i: int|
            0 <= i < n && block_changed(cur, bs, prev, i) ==> changed_indices(
                cur,
                bs,
                prev,
                n,
            ).contains(i as usize),
    decreases n,
{
    if n > 0 {
        lemma_changed_indices_spec(cur, bs, prev, (n - 1) as nat);
        let p = changed_indices(cur, bs, prev, (n - 1) as nat);
        let whole = changed_indices(cur, bs, prev, n);
        assert forall|i: int|
            0 <= i < n && block_changed(cur, bs, prev, i) implies whole.contains(i as usize) by {
            if i < n - 1 {
                assert(p.contains(i as usize));
                let k = choose|k: int| 0 <= k < p.len() && p[k] == i as usize;
                assert(whole[k] == i as usize);
            } else {
                assert(whole[whole.len() - 1] == i as usize);
            }
        }
    }
}

} // verus!
