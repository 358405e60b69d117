//! The version manager and storage facade: per-path ordered backup
//! histories, change detection by whole-file digest, batched retention
//! eviction, deduplicated sealed block storage, and restore reconstruction.

use vstd::prelude::*;
use vstd::string::StringSliceAdditionalSpecFns;

use crate::backup::block_digests;
use crate::backup::BackupEngine;
use crate::backup::BackupVersion;
use crate::backup::FileMetadata;
use crate::backup::VersionView;
use crate::chunks::chunks_of;
use crate::chunks::split_chunks;
use crate::crypto::digest_of;
use crate::crypto::sealed_open;
use crate::crypto::AeadAlgorithm;
use crate::crypto::CryptoError;
use crate::object_store::ObjectStore;

verus! {

/// Why a restore failed.
#[derive(Clone, Copy, Debug, PartialEq, Eq, Structural)]
pub enum RestoreError {
    /// The path has no backup history.
    NoBackups,
    /// The requested version number is not in the history.
    VersionNotFound,
    /// A referenced block is not in the object store.
    BlockMissing,
    /// A stored block failed authentication or decompression.
    CorruptBlock,
}

/// The backup history of one source path: versions in insertion order,
/// which is version-number order.
#[derive(Debug)]
pub struct BackupInfo {
    pub file_path: String,
    pub versions: Vec<BackupVersion>,
}

/// The mathematical content of a `BackupInfo`.
#[verifier::ext_equal]
pub struct InfoView {
    pub file_path: Seq<char>,
    pub versions: Seq<VersionView>,
}

impl View for BackupInfo {
    type V = InfoView;

    open spec fn view(&self) -> InfoView {
        InfoView {
            file_path: self.file_path@,
            versions: Seq::new(self.versions@.len(), |i: int| self.versions@[i]@),
        }
    }
}

impl Clone for BackupInfo {
    fn clone(&self) -> (r: Self)
        ensures
            r@ =~= self@,
    {
        let mut versions: Vec<BackupVersion> = Vec::new();
        let mut i: usize = 0;
        while i < self.versions.len()
            invariant
                i <= self.versions@.len(),
                versions@.len() == i,
                forall|j: int| 0 <= j < i ==> (#[trigger] versions@[j])@ == self.versions@[j]@,
            decreases self.versions@.len() - i,
        {
            versions.push(self.versions[i].clone());
            i = i + 1;
        }
        let r = BackupInfo { file_path: self.file_path.clone(), versions };
        proof {
            assert(r@.versions =~= self@.versions);
        }
        r
    }
}

/// Inserts a chunk into the digest-to-content map unless its digest is
/// already present (write-if-absent).
pub open spec fn put_chunk(m: Map<Seq<char>, Seq<u8>>, c: Seq<u8>) -> Map<Seq<char>, Seq<u8>> {
    if m.contains_key(digest_of(c)) {
        m
    } else {
        m.insert(digest_of(c), c)
    }
}

/// Inserts every chunk in order, each if absent.
pub open spec fn put_chunks(m: Map<Seq<char>, Seq<u8>>, cs: Seq<Seq<u8>>) -> Map<Seq<char>, Seq<u8>>
    decreases cs.len(),
{
    if cs.len() == 0 {
        m
    } else {
        put_chunk(put_chunks(m, cs.drop_last()), cs.last())
    }
}

/// The bytes a restore assembles: the contents stored under each digest,
/// concatenated in block order.
pub open spec fn restored_bytes(m: Map<Seq<char>, Seq<u8>>, ds: Seq<Seq<char>>) -> Seq<u8>
    decreases ds.len(),
{
    if ds.len() == 0 {
        Seq::empty()
    } else {
        m[ds[0]] + restored_bytes(m, ds.skip(1))
    }
}

/// The number the next recorded version gets: one past the last, or 1 for a
/// first version.
pub open spec fn next_version_number(vs: Seq<VersionView>) -> int {
    if vs.len() == 0 {
        1
    } else {
        vs.last().version + 1
    }
}

/// The version with its number assigned.
pub open spec fn numbered(v: VersionView, n: u64) -> VersionView {
    VersionView { version: n, ..v }
}

/// Batched retention: when the count exceeds the cap, the oldest `batch`
/// versions leave, from the front only.
pub open spec fn apply_retention(vs: Seq<VersionView>, cap: nat, batch: nat) -> Seq<VersionView> {
    if vs.len() > cap {
        vs.skip(batch as int)
    } else {
        vs
    }
}

/// Recording a backup version: a no-op when the whole-file digest equals
/// the last version's (the file did not change); otherwise the version is
/// numbered, appended, and retention applies.
pub open spec fn record_version(
    vs: Seq<VersionView>,
    v: VersionView,
    cap: nat,
    batch: nat,
) -> Seq<VersionView> {
    if vs.len() > 0 && vs.last().file_hash == v.file_hash {
        vs
    } else {
        apply_retention(vs.push(numbered(v, next_version_number(vs) as u64)), cap, batch)
    }
}

/// Whether some history is recorded for `path`.
pub open spec fn has_info(infos: Seq<InfoView>, path: Seq<char>) -> bool {
    exists|i: int| 0 <= i < infos.len() && infos[i].file_path == path
}

/// The position of the history for `path` (unique in a well-formed store).
pub open spec fn info_idx(infos: Seq<InfoView>, path: Seq<char>) -> int {
    choose|i: int| 0 <= i < infos.len() && infos[i].file_path == path
}

/// The versions recorded for `path`, empty when none are.
pub open spec fn versions_of(infos: Seq<InfoView>, path: Seq<char>) -> Seq<VersionView> {
    if has_info(infos, path) {
        infos[info_idx(infos, path)].versions
    } else {
        Seq::empty()
    }
}

/// The version a restore request selects: the numbered one if a number is
/// given, else the latest; nothing when the history is empty or the number
/// is absent.
pub open spec fn select_version(vs: Seq<VersionView>, req: Option<u64>) -> Option<VersionView> {
    match req {
        None => if vs.len() == 0 {
            None
        } else {
            Some(vs.last())
        },
        Some(n) => if exists|i: int| 0 <= i < vs.len() && vs[i].version == n {
            Some(vs[choose|i: int| 0 <= i < vs.len() && vs[i].version == n])
        } else {
            None
        },
    }
}

/// The version that backing up `data` at `timestamp` offers for recording,
/// before a number is assigned.
pub open spec fn offered_version(
    data: Seq<u8>,
    bs: nat,
    timestamp: u64,
    metadata: FileMetadata,
) -> VersionView {
    VersionView {
        version: 0,
        timestamp,
        file_hash: digest_of(data),
        block_hashes: block_digests(data, bs),
        metadata,
    }
}

/// Whether a backup of data with whole-file digest `h` would be skipped as
/// unchanged.
pub open spec fn backup_unchanged(infos: Seq<InfoView>, path: Seq<char>, h: Seq<char>) -> bool {
    has_info(infos, path) && {
        let vs = infos[info_idx(infos, path)].versions;
        vs.len() > 0 && vs.last().file_hash == h
    }
}

/// How one backup changes the set of histories: the path's history gets the
/// version recorded (or stays, if unchanged); a first backup of a path opens
/// its history.
pub open spec fn backup_infos_step(
    infos: Seq<InfoView>,
    path: Seq<char>,
    v: VersionView,
    cap: nat,
    batch: nat,
) -> Seq<InfoView> {
    if has_info(infos, path) {
        let i = info_idx(infos, path);
        infos.update(
            i,
            InfoView { file_path: path, versions: record_version(infos[i].versions, v, cap, batch) },
        )
    } else {
        infos.push(
            InfoView { file_path: path, versions: record_version(Seq::empty(), v, cap, batch) },
        )
    }
}

/// The next version number for `path` stays representable.  Version numbers
/// only grow; this machine limit is the one thing a caller must respect.
pub open spec fn version_headroom(infos: Seq<InfoView>, path: Seq<char>) -> bool {
    next_version_number(versions_of(infos, path)) <= u64::MAX
}

/// A stored payload opens (under the store key) to a compressed frame that
/// decompresses to `chunk`.
pub open spec fn block_decodes(
    alg: AeadAlgorithm,
    key: Seq<u8>,
    payload: Seq<u8>,
    chunk: Seq<u8>,
) -> bool {
    match sealed_open(alg, key, payload) {
        Some(m) => crate::crypto::decompress_of(m) == Some(chunk),
        None => false,
    }
}

/// The object store and its content model agree: same digests, each digest
/// is the digest of its content, and each stored payload decodes to its
/// content.
pub open spec fn chunks_ok(
    alg: AeadAlgorithm,
    key: Seq<u8>,
    store: Map<Seq<char>, Seq<u8>>,
    chunks: Map<Seq<char>, Seq<u8>>,
) -> bool {
    &&& store.dom() == chunks.dom()
    &&& forall|d: Seq<char>| #[trigger]
        chunks.contains_key(d) ==> digest_of(chunks[d]) == d
    &&& forall|d: Seq<char>| #[trigger]
        chunks.contains_key(d) ==> block_decodes(alg, key, store[d], chunks[d])
}

/// A well-formed history: at most `cap` versions, numbered consecutively
/// from a first number of at least 1, every referenced block digest stored.
pub open spec fn versions_wf(vs: Seq<VersionView>, cap: nat, dom: Set<Seq<char>>) -> bool {
    &&& vs.len() <= cap
    &&& vs.len() > 0 ==> vs[0].version >= 1
    &&& forall|i: int| 0 <= i < vs.len() ==> (#[trigger] vs[i].version) == vs[0].version + i
    &&& forall|i: int, j: int|
        0 <= i < vs.len() && 0 <= j < vs[i].block_hashes.len() ==> dom.contains(
            #[trigger] vs[i].block_hashes[j],
        )
}

/// The history position for `path` is exactly `i` when `i` holds `path`
/// and paths are distinct.
proof fn lemma_info_idx(infos: Seq<InfoView>, path: Seq<char>, i: int)
    requires
        0 <= i < infos.len(),
        infos[i].file_path == path,
        forall|a: int, b: int|
            0 <= a < b < infos.len() ==> (#[trigger] infos[a].file_path) != (
            #[trigger] infos[b].file_path),
    ensures
        has_info(infos, path),
        info_idx(infos, path) == i,
{
    assert(has_info(infos, path));
    let j = info_idx(infos, path);
    if i < j {
        assert(infos[i].file_path != infos[j].file_path);
    } else if j < i {
        assert(infos[j].file_path != infos[i].file_path);
    }
}

/// What inserting chunks does to the model: existing entries keep their
/// values, every chunk's digest is present afterwards, and every new entry
/// is one of the chunks, keyed by its digest.
pub proof fn lemma_put_chunks_props(m: Map<Seq<char>, Seq<u8>>, cs: Seq<Seq<u8>>)
    ensures
        forall|d: Seq<char>| #[trigger]
            m.contains_key(d) ==> put_chunks(m, cs).contains_key(d) && put_chunks(m, cs)[d] == m[d],
        forall|i: int|
            0 <= i < cs.len() ==> put_chunks(m, cs).contains_key(digest_of(#[trigger] cs[i])),
        forall|d: Seq<char>|
            #![trigger put_chunks(m, cs).contains_key(d)]
            put_chunks(m, cs).contains_key(d) && !m.contains_key(d) ==> exists|i: int|
                0 <= i < cs.len() && d == digest_of(#[trigger] cs[i]) && put_chunks(m, cs)[d]
                    == cs[i],
    decreases cs.len(),
{
    if cs.len() > 0 {
        let prev = put_chunks(m, cs.drop_last());
        let last = cs.last();
        lemma_put_chunks_props(m, cs.drop_last());
        assert forall|i: int|
            0 <= i < cs.len() implies put_chunks(m, cs).contains_key(
            digest_of(#[trigger] cs[i]),
        ) by {
            if i < cs.len() - 1 {
                assert(cs.drop_last()[i] == cs[i]);
                assert(prev.contains_key(digest_of(cs[i])));
            }
        }
        assert forall|d: Seq<char>|
            put_chunks(m, cs).contains_key(d) && !m.contains_key(d) implies exists|i: int|
            0 <= i < cs.len() && d == digest_of(#[trigger] cs[i]) && put_chunks(m, cs)[d]
                == cs[i] by {
            if prev.contains_key(d) {
                let i = choose|i: int|
                    0 <= i < cs.drop_last().len() && d == digest_of(#[trigger] cs.drop_last()[i])
                        && prev[d] == cs.drop_last()[i];
                assert(cs[i] == cs.drop_last()[i]);
                assert(put_chunks(m, cs)[d] == prev[d]);
            } else {
                assert(d == digest_of(last));
                assert(cs[cs.len() - 1] == last);
                assert(put_chunks(m, cs)[d] == last);
            }
        }
    }
}

/// At any prefix of the storing loop, the model extends the old one only
/// with chunks of the data being backed up.
proof fn lemma_err_chunk_clauses(
    m0: Map<Seq<char>, Seq<u8>>,
    cs: Seq<Seq<u8>>,
    i: int,
    cur: Map<Seq<char>, Seq<u8>>,
)
    requires
        0 <= i <= cs.len(),
        cur == put_chunks(m0, cs.take(i)),
    ensures
        m0.submap_of(cur),
        forall|d: Seq<char>|
            #![trigger cur.contains_key(d)]
            cur.contains_key(d) && !m0.contains_key(d) ==> exists|j: int|
                0 <= j < cs.len() && d == digest_of(#[trigger] cs[j]) && cur[d] == cs[j],
{
    lemma_put_chunks_props(m0, cs.take(i));
    assert forall|d: Seq<char>|
        cur.contains_key(d) && !m0.contains_key(d) implies exists|j: int|
        0 <= j < cs.len() && d == digest_of(#[trigger] cs[j]) && cur[d] == cs[j] by {
        let j = choose|j: int|
            0 <= j < cs.take(i).len() && d == digest_of(#[trigger] cs.take(i)[j]) && cur[d]
                == cs.take(i)[j];
        assert(cs.take(i)[j] == cs[j]);
    }
    assert(m0.submap_of(cur)) by {
        assert(forall|d: Seq<char>| #[trigger]
            m0.contains_key(d) ==> cur.contains_key(d) && cur[d] == m0[d]);
    }
}

/// A history stays well-formed when the set of stored digests only grows.
proof fn lemma_versions_wf_mono(
    vs: Seq<VersionView>,
    cap: nat,
    dom1: Set<Seq<char>>,
    dom2: Set<Seq<char>>,
)
    requires
        versions_wf(vs, cap, dom1),
        dom1.subset_of(dom2),
    ensures
        versions_wf(vs, cap, dom2),
{
}

/// Recording a changed version keeps a history well-formed, provided the
/// new version's number continues the sequence and its blocks are stored.
proof fn lemma_versions_wf_record(
    vs: Seq<VersionView>,
    v: VersionView,
    cap: nat,
    batch: nat,
    dom: Set<Seq<char>>,
)
    requires
        versions_wf(vs, cap, dom),
        1 <= batch <= cap,
        next_version_number(vs) <= u64::MAX,
        forall|j: int| 0 <= j < v.block_hashes.len() ==> dom.contains(#[trigger] v.block_hashes[j]),
    ensures
        versions_wf(record_version(vs, v, cap, batch), cap, dom),
{
    if vs.len() > 0 && vs.last().file_hash == v.file_hash {
    } else {
        let n = next_version_number(vs) as u64;
        let pushed = vs.push(numbered(v, n));
        assert(forall|i: int|
            0 <= i < pushed.len() ==> (#[trigger] pushed[i].version) == pushed[0].version + i);
        if pushed.len() > cap {
            let trimmed = pushed.skip(batch as int);
            assert(vs.len() <= cap);
            assert(pushed.len() == cap + 1);
            assert(trimmed.len() == cap + 1 - batch);
            assert forall|i: int|
                0 <= i < trimmed.len() implies (#[trigger] trimmed[i].version) == trimmed[0].version
                + i by {
                assert(trimmed[i] == pushed[batch + i]);
                assert(trimmed[0] == pushed[batch as int]);
            }
            assert(trimmed[0] == pushed[batch as int]);
            assert(trimmed[0].version >= 1);
            assert forall|i: int, j: int|
                0 <= i < trimmed.len() && 0 <= j < trimmed[i].block_hashes.len() implies
                dom.contains(#[trigger] trimmed[i].block_hashes[j]) by {
                assert(trimmed[i] == pushed[batch + i]);
            }
        }
    }
}

/// After a changed backup is recorded, the facade's invariant holds again.
proof fn lemma_wf_after_backup(
    pre: Storage,
    post: Storage,
    path: Seq<char>,
    v: VersionView,
    cs: Seq<Seq<u8>>,
)
    requires
        pre.wf(),
        version_headroom(pre.spec_infos(), path),
        pre.same_config(post),
        post.engine == pre.engine,
        post.key == pre.key,
        post.cap == pre.cap,
        post.batch == pre.batch,
        post.store.wf(),
        chunks_ok(post.spec_algorithm(), post.key@, post.store@, post.spec_chunks()),
        post.spec_chunks() == put_chunks(pre.spec_chunks(), cs),
        v.block_hashes == cs.map(|i: int, c: Seq<u8>| digest_of(c)),
        post.spec_infos() =~= backup_infos_step(
            pre.spec_infos(),
            path,
            v,
            pre.spec_cap(),
            pre.spec_batch(),
        ),
    ensures
        post.wf(),
{
    let infos = pre.spec_infos();
    let step = post.spec_infos();
    let cap = pre.spec_cap();
    let batch = pre.spec_batch();
    let dom1 = pre.spec_chunks().dom();
    let dom2 = post.spec_chunks().dom();
    lemma_put_chunks_props(pre.spec_chunks(), cs);
    assert(dom1.subset_of(dom2));
    assert forall|j: int| 0 <= j < v.block_hashes.len() implies dom2.contains(
        #[trigger] v.block_hashes[j],
    ) by {
        assert(v.block_hashes[j] == digest_of(cs[j]));
    }
    if has_info(infos, path) {
        let idx = info_idx(infos, path);
        assert(infos[idx].file_path == path);
        assert forall|a: int, b: int| 0 <= a < b < step.len() implies (
        #[trigger] step[a].file_path) != (#[trigger] step[b].file_path) by {
            assert(step[a].file_path == infos[a].file_path);
            assert(step[b].file_path == infos[b].file_path);
        }
        assert forall|i: int| 0 <= i < step.len() implies versions_wf(
            (#[trigger] step[i]).versions,
            cap,
            dom2,
        ) by {
            if i == idx {
                lemma_versions_wf_mono(infos[idx].versions, cap, dom1, dom2);
                lemma_versions_wf_record(infos[idx].versions, v, cap, batch, dom2);
            } else {
                lemma_versions_wf_mono(infos[i].versions, cap, dom1, dom2);
            }
        }
    } else {
        assert forall|a: int, b: int| 0 <= a < b < step.len() implies (
        #[trigger] step[a].file_path) != (#[trigger] step[b].file_path) by {
            if b < step.len() - 1 {
                assert(step[a].file_path == infos[a].file_path);
                assert(step[b].file_path == infos[b].file_path);
            } else {
                assert(step[a].file_path == infos[a].file_path);
                assert(step[b].file_path == path);
            }
        }
        assert forall|i: int| 0 <= i < step.len() implies versions_wf(
            (#[trigger] step[i]).versions,
            cap,
            dom2,
        ) by {
            if i < step.len() - 1 {
                lemma_versions_wf_mono(infos[i].versions, cap, dom1, dom2);
            } else {
                assert(versions_wf(Seq::<VersionView>::empty(), cap, dom2));
                lemma_versions_wf_record(Seq::<VersionView>::empty(), v, cap, batch, dom2);
            }
        }
    }
}

/// The storage facade: a backup engine, a process-wide block key, the
/// object store, and the per-path version histories with their retention
/// policy.
pub struct Storage {
    engine: BackupEngine,
    key: Vec<u8>,
    store: ObjectStore,
    infos: Vec<BackupInfo>,
    cap: usize,
    batch: usize,
    chunk_model: Ghost<Map<Seq<char>, Seq<u8>>>,
}

impl Storage {
    /// The digest-to-content model of the object store: what each stored
    /// object decodes to.
    pub closed spec fn spec_chunks(self) -> Map<Seq<char>, Seq<u8>> {
        self.chunk_model@
    }

    /// The recorded histories.
    pub closed spec fn spec_infos(self) -> Seq<InfoView> {
        Seq::new(self.infos@.len(), |i: int| self.infos@[i]@)
    }

    pub closed spec fn spec_cap(self) -> nat {
        self.cap as nat
    }

    pub closed spec fn spec_batch(self) -> nat {
        self.batch as nat
    }

    pub closed spec fn spec_block_size(self) -> nat {
        self.engine.spec_block_size()
    }

    pub closed spec fn spec_algorithm(self) -> AeadAlgorithm {
        self.engine.spec_algorithm()
    }

    pub closed spec fn spec_key(self) -> Seq<u8> {
        self.key@
    }

    /// How many sealed objects the store holds.
    pub closed spec fn spec_object_count(self) -> nat {
        self.store.spec_len()
    }

    /// The structural invariant the facade maintains.
    pub closed spec fn wf(self) -> bool {
        &&& self.engine.spec_block_size() >= 1
        &&& self.key@.len() == self.spec_algorithm().spec_key_len()
        &&& 1 <= self.batch <= self.cap
        &&& self.store.wf()
        &&& chunks_ok(self.spec_algorithm(), self.key@, self.store@, self.chunk_model@)
        &&& forall|a: int, b: int|
            0 <= a < b < self.spec_infos().len() ==> (#[trigger] self.spec_infos()[a].file_path)
                != (#[trigger] self.spec_infos()[b].file_path)
        &&& forall|i: int|
            0 <= i < self.spec_infos().len() ==> versions_wf(
                (#[trigger] self.spec_infos()[i]).versions,
                self.spec_cap(),
                self.chunk_model@.dom(),
            )
    }

    /// Same policy, scheme, key and block size.
    pub open spec fn same_config(self, other: Storage) -> bool {
        &&& self.spec_cap() == other.spec_cap()
        &&& self.spec_batch() == other.spec_batch()
        &&& self.spec_block_size() == other.spec_block_size()
        &&& self.spec_algorithm() == other.spec_algorithm()
        &&& self.spec_key() == other.spec_key()
    }

    /// A fresh storage: empty store, empty histories, a fresh random block
    /// key, blocks of `block_size` bytes, and a retention policy that trims
    /// the oldest `batch` versions once a history exceeds `cap`.  The key
    /// lives only in this value: nothing persists it, so blocks sealed
    /// here are not recoverable by a later process — key custody is the
    /// caller's open question, deliberately not settled in this store.
    pub fn new(block_size: usize, cap: usize, batch: usize) -> (r: Result<Storage, CryptoError>)
        requires
            block_size >= 1,
            1 <= batch <= cap,
        ensures
            r matches Ok(s) ==> s.wf() && s.spec_infos() =~= Seq::<InfoView>::empty()
                && s.spec_chunks() == Map::<Seq<char>, Seq<u8>>::empty() && s.spec_cap() == cap
                && s.spec_batch() == batch && s.spec_block_size() == block_size
                && s.spec_object_count() == 0,
    {
        let engine = BackupEngine::new(block_size);
        let crypto = crate::crypto::Crypto::new();
        let key = match crypto.generate_key() {
            Ok(k) => k,
            Err(e) => return Err(e),
        };
        let r = Storage {
            engine,
            key,
            store: ObjectStore::new(),
            infos: Vec::new(),
            cap,
            batch,
            chunk_model: Ghost(Map::empty()),
        };
        proof {
            assert(r.spec_infos() =~= Seq::<InfoView>::empty());
            assert(r.store@.dom() =~= r.chunk_model@.dom());
        }
        Ok(r)
    }

    /// The position of the history for `path`, if one is recorded.
    fn find_info(&self, path: &String) -> (r: Option<usize>)
        ensures
            match r {
                Some(i) => i < self.spec_infos().len() && self.spec_infos()[i as int].file_path
                    == path@,
                None => !has_info(self.spec_infos(), path@),
            },
    {
        let ghost iv = self.spec_infos();
        let mut i: usize = 0;
        while i < self.infos.len()
            invariant
                i <= self.infos@.len(),
                iv == self.spec_infos(),
                iv.len() == self.infos@.len(),
                forall|j: int| 0 <= j < i ==> (#[trigger] iv[j]).file_path != path@,
            decreases self.infos@.len() - i,
        {
            let same = self.infos[i].file_path.eq(path);
            proof {
                assert(iv[i as int].file_path == self.infos@[i as int].file_path@);
            }
            if same {
                return Some(i);
            }
            i = i + 1;
        }
        None
    }

    /// Backs up one file's contents as observed at `timestamp`: seals and
    /// stores every block whose digest is not yet stored, then records a
    /// new numbered version for `path` — unless the whole-file digest
    /// equals the last recorded one, in which case nothing changes and no
    /// version is added.  Returns the assigned version number, or `None`
    /// for the unchanged case.  On a crypto failure no version is recorded.
    #[verifier::loop_isolation(false)]
    pub fn backup_file(
        &mut self,
        path: &String,
        data: &Vec<u8>,
        timestamp: u64,
        metadata: FileMetadata,
    ) -> (r: Result<Option<u64>, CryptoError>)
        requires
            old(self).wf(),
            version_headroom(old(self).spec_infos(), path@),
        ensures
            final(self).wf(),
            old(self).same_config(*final(self)),
            ({
                let v = offered_version(data@, old(self).spec_block_size(), timestamp, metadata);
                let cs = chunks_of(data@, old(self).spec_block_size());
                match r {
                    Ok(out) => {
                        &&& final(self).spec_infos() =~= backup_infos_step(
                            old(self).spec_infos(),
                            path@,
                            v,
                            old(self).spec_cap(),
                            old(self).spec_batch(),
                        )
                        &&& final(self).spec_chunks() == if backup_unchanged(
                            old(self).spec_infos(),
                            path@,
                            v.file_hash,
                        ) {
                            old(self).spec_chunks()
                        } else {
                            put_chunks(old(self).spec_chunks(), cs)
                        }
                        &&& match out {
                            None => backup_unchanged(old(self).spec_infos(), path@, v.file_hash),
                            Some(n) => !backup_unchanged(old(self).spec_infos(), path@, v.file_hash)
                                && n == next_version_number(
                                versions_of(old(self).spec_infos(), path@),
                            ),
                        }
                    },
                    Err(_) => ({
                        let before = old(self).spec_chunks();
                        let after = final(self).spec_chunks();
                        &&& final(self).spec_infos() =~= old(self).spec_infos()
                        &&& before.submap_of(after)
                        &&& forall|d: Seq<char>|
                            #![trigger after.contains_key(d)]
                            after.contains_key(d) && !before.contains_key(d) ==> exists|i: int|
                                0 <= i < cs.len() && d == digest_of(#[trigger] cs[i]) && after[d]
                                    == cs[i]
                    }),
                }
            }),
    {
        let ghost old_infos = self.spec_infos();
        let ghost m0 = self.chunk_model@;
        let ghost bs = self.spec_block_size();
        let ghost cs = chunks_of(data@, bs);
        let ghost v = offered_version(data@, bs, timestamp, metadata);
        let mut version = self.engine.create_backup(data, timestamp, metadata);
        proof {
            assert(version@ =~= v);
        }

        let idx_opt = self.find_info(path);
        proof {
            if let Some(i) = idx_opt {
                lemma_info_idx(old_infos, path@, i as int);
            }
        }
        let mut unchanged = false;
        if let Some(idx) = idx_opt {
            let vcount = self.infos[idx].versions.len();
            if vcount > 0 {
                unchanged = self.infos[idx].versions[vcount - 1].file_hash.eq(&version.file_hash);
                proof {
                    let vs = old_infos[idx as int].versions;
                    assert(vs[vcount - 1] == self.infos@[idx as int].versions@[vcount - 1]@);
                    assert(vs.last().file_hash == self.infos@[idx as int].versions@[vcount
                        - 1]@.file_hash);
                    assert(unchanged == backup_unchanged(old_infos, path@, v.file_hash));
                }
            } else {
                proof {
                    assert(!backup_unchanged(old_infos, path@, v.file_hash));
                }
            }
        } else {
            proof {
                assert(!backup_unchanged(old_infos, path@, v.file_hash));
            }
        }
        if unchanged {
            proof {
                let step = backup_infos_step(old_infos, path@, v, self.spec_cap(), self.spec_batch());
                let idx = info_idx(old_infos, path@);
                assert(record_version(
                    old_infos[idx].versions,
                    v,
                    self.spec_cap(),
                    self.spec_batch(),
                ) == old_infos[idx].versions);
                assert(InfoView { file_path: path@, versions: old_infos[idx].versions } =~= old_infos[idx]);
                assert(step =~= old_infos);
            }
            return Ok(None);
        }
        proof {
            assert(!backup_unchanged(old_infos, path@, v.file_hash));
        }

        // Seal and store every block whose digest is not yet stored.
        let chunks = split_chunks(data, self.engine.block_size());
        let mut i: usize = 0;
        while i < chunks.len()
            invariant
                i <= chunks@.len(),
                self.engine == old(self).engine,
                self.key == old(self).key,
                self.infos == old(self).infos,
                self.cap == old(self).cap,
                self.batch == old(self).batch,
                self.store.wf(),
                chunks_ok(self.spec_algorithm(), self.key@, self.store@, self.chunk_model@),
                self.chunk_model@ == put_chunks(m0, cs.take(i as int)),
            decreases chunks@.len() - i,
        {
            proof {
                assert(crate::chunks::views_of(chunks@)[i as int] == cs[i as int]);
                assert(version.block_hashes.deep_view()[i as int] == digest_of(cs[i as int]));
                assert(cs.take(i + 1).drop_last() =~= cs.take(i as int));
                assert(cs.take(i + 1).last() == cs[i as int]);
                lemma_put_chunks_props(m0, cs.take(i as int));
            }
            let present = self.store.contains(&version.block_hashes[i]);
            if !present {
                let compressed = match self.engine.compress(&chunks[i]) {
                    Ok(c) => c,
                    Err(e) => {
                        proof {
                            lemma_err_chunk_clauses(m0, cs, i as int, self.chunk_model@);
                        }
                        return Err(e);
                    },
                };
                let encrypted = match self.engine.encrypt_block(&compressed, &self.key) {
                    Ok(c) => c,
                    Err(e) => {
                        proof {
                            lemma_err_chunk_clauses(m0, cs, i as int, self.chunk_model@);
                        }
                        return Err(e);
                    },
                };
                let digest = version.block_hashes[i].clone();
                let ghost d = digest@;
                let ghost c = cs[i as int];
                self.store.put_if_absent(digest, encrypted);
                self.chunk_model = Ghost(self.chunk_model@.insert(d, c));
                proof {
                    assert(self.store@.dom() =~= self.chunk_model@.dom());
                    assert(block_decodes(self.spec_algorithm(), self.key@, encrypted@, c));
                    assert forall|dd: Seq<char>| #[trigger]
                        self.chunk_model@.contains_key(dd) implies digest_of(self.chunk_model@[dd])
                        == dd && block_decodes(
                        self.spec_algorithm(),
                        self.key@,
                        self.store@[dd],
                        self.chunk_model@[dd],
                    ) by {
                        if dd != d {
                            assert(put_chunks(m0, cs.take(i as int)).contains_key(dd));
                        }
                    }
                }
            } else {
                proof {
                    assert(self.chunk_model@.contains_key(digest_of(cs[i as int])));
                    assert(put_chunk(self.chunk_model@, cs[i as int]) == self.chunk_model@);
                }
            }
            proof {
                assert(self.chunk_model@ == put_chunks(m0, cs.take(i + 1)));
            }
            i = i + 1;
        }
        proof {
            assert(cs.take(i as int) =~= cs);
            lemma_put_chunks_props(m0, cs);
        }

        // Record the new version in the path's history.
        let next = match idx_opt {
            Some(idx) => {
                let vcount = self.infos[idx].versions.len();
                if vcount == 0 {
                    1
                } else {
                    proof {
                        let vs = old_infos[idx as int].versions;
                        assert(vs.last() == self.infos@[idx as int].versions@[vcount - 1]@);
                        assert(versions_of(old_infos, path@) == vs);
                    }
                    self.infos[idx].versions[vcount - 1].version + 1
                }
            },
            None => 1,
        };
        version.version = next;
        proof {
            assert(version@ =~= numbered(v, next));
        }
        match idx_opt {
            Some(idx) => {
                let ghost vs0 = old_infos[idx as int].versions;
                let ghost pushed = vs0.push(numbered(v, next));
                let mut info = self.infos.remove(idx);
                info.versions.push(version);
                proof {
                    assert(info@.versions =~= pushed);
                }
                if info.versions.len() > self.cap {
                    let mut k: usize = 0;
                    while k < self.batch
                        invariant
                            k <= self.batch,
                            info.versions@.len() == pushed.len() - k,
                            info@.versions =~= pushed.skip(k as int),
                            info@.file_path == path@,
                        decreases self.batch - k,
                    {
                        let ghost before = info@.versions;
                        info.versions.remove(0);
                        proof {
                            assert(info@.versions =~= before.skip(1));
                            assert(before.skip(1) =~= pushed.skip(k + 1));
                        }
                        k = k + 1;
                    }
                }
                proof {
                    assert(info@.versions =~= record_version(
                        vs0,
                        v,
                        self.spec_cap(),
                        self.spec_batch(),
                    ));
                }
                self.infos.insert(idx, info);
                proof {
                    assert(self.spec_infos() =~= backup_infos_step(
                        old_infos,
                        path@,
                        v,
                        self.spec_cap(),
                        self.spec_batch(),
                    ));
                    lemma_wf_after_backup(*old(self), *self, path@, v, cs);
                }
                Ok(Some(next))
            },
            None => {
                let mut vlist: Vec<BackupVersion> = Vec::new();
                vlist.push(version);
                let info = BackupInfo { file_path: path.clone(), versions: vlist };
                proof {
                    assert(info@.versions =~= seq![numbered(v, 1)]);
                    assert(record_version(
                        Seq::<VersionView>::empty(),
                        v,
                        self.spec_cap(),
                        self.spec_batch(),
                    ) =~= seq![numbered(v, 1)]);
                }
                self.infos.push(info);
                proof {
                    assert(self.spec_infos() =~= backup_infos_step(
                        old_infos,
                        path@,
                        v,
                        self.spec_cap(),
                        self.spec_batch(),
                    ));
                    lemma_wf_after_backup(*old(self), *self, path@, v, cs);
                }
                Ok(Some(next))
            },
        }
    }

    /// Restores one file from its history: the bytes of the requested
    /// version (by number), or of the latest when no number is given.
    /// Fails with `NoBackups` when the path has no recorded version and
    /// with `VersionNotFound` when the number is absent from the history;
    /// in a well-formed store a selected version always restores, so
    /// neither `BlockMissing` nor `CorruptBlock` can in fact occur.
    #[verifier::loop_isolation(false)]
    pub fn restore_file(&self, path: &String, version: Option<u64>) -> (r: Result<
        Vec<u8>,
        RestoreError,
    >)
        requires
            self.wf(),
        ensures
            ({
                let vs = versions_of(self.spec_infos(), path@);
                match select_version(vs, version) {
                    Some(w) => r matches Ok(bytes) && bytes@ == restored_bytes(
                        self.spec_chunks(),
                        w.block_hashes,
                    ),
                    None => r matches Err(e) && e == if vs.len() == 0 {
                        RestoreError::NoBackups
                    } else {
                        RestoreError::VersionNotFound
                    },
                }
            }),
    {
        let ghost infos = self.spec_infos();
        let idx = match self.find_info(path) {
            Some(i) => {
                proof {
                    lemma_info_idx(infos, path@, i as int);
                }
                i
            },
            None => {
                return Err(RestoreError::NoBackups);
            },
        };
        let ghost vs = versions_of(infos, path@);
        proof {
            assert(vs == infos[idx as int].versions);
        }
        let vcount = self.infos[idx].versions.len();
        if vcount == 0 {
            return Err(RestoreError::NoBackups);
        }
        let wi: usize = match version {
            None => vcount - 1,
            Some(n) => {
                let mut j: usize = 0;
                let mut found = false;
                while j < vcount && !found
                    invariant
                        j <= vcount,
                        !found ==> forall|k: int| 0 <= k < j ==> (#[trigger] vs[k].version) != n,
                        found ==> j < vcount && vs[j as int].version == n,
                    decreases vcount - j + (if found {
                        0int
                    } else {
                        1int
                    }),
                {
                    let hit = self.infos[idx].versions[j].version == n;
                    proof {
                        assert(vs[j as int] == self.infos@[idx as int].versions@[j as int]@);
                    }
                    if hit {
                        found = true;
                    } else {
                        j = j + 1;
                    }
                }
                if !found {
                    return Err(RestoreError::VersionNotFound);
                }
                j
            },
        };
        proof {
            if let Some(n) = version {
                let k = choose|k: int| 0 <= k < vs.len() && vs[k].version == n;
                assert(vs[k].version == vs[0].version + k);
                assert(vs[wi as int].version == vs[0].version + wi);
                assert(k == wi);
            }
            assert(select_version(vs, version) == Some(vs[wi as int]));
        }
        let ghost wv = vs[wi as int];
        let ghost ds = wv.block_hashes;
        let ghost m = self.spec_chunks();
        let w = &self.infos[idx].versions[wi];
        proof {
            assert(w@ == wv);
        }
        let mut out: Vec<u8> = Vec::new();
        let mut b: usize = 0;
        proof {
            assert(ds.skip(0) =~= ds);
            assert(out@ + restored_bytes(m, ds) =~= restored_bytes(m, ds));
        }
        while b < w.block_hashes.len()
            invariant
                b <= ds.len(),
                w.block_hashes@.len() == ds.len(),
                out@ + restored_bytes(m, ds.skip(b as int)) =~= restored_bytes(m, ds),
            decreases ds.len() - b,
        {
            let h = &w.block_hashes[b];
            proof {
                assert(h@ == wv.block_hashes[b as int]);
                assert(m.contains_key(h@));
            }
            let payload = match self.store.get(h) {
                Some(p) => p,
                None => {
                    return Err(RestoreError::BlockMissing);
                },
            };
            proof {
                assert(block_decodes(self.spec_algorithm(), self.key@, payload@, m[h@]));
            }
            let compressed = match self.engine.decrypt_block(payload, &self.key) {
                Ok(c) => c,
                Err(_) => {
                    return Err(RestoreError::CorruptBlock);
                },
            };
            let mut block = match self.engine.decompress(&compressed) {
                Ok(bk) => bk,
                Err(_) => {
                    return Err(RestoreError::CorruptBlock);
                },
            };
            let ghost out0 = out@;
            proof {
                assert(block@ == m[ds[b as int]]);
                assert(ds.skip(b as int)[0] == ds[b as int]);
                assert(ds.skip(b as int).skip(1) =~= ds.skip(b + 1));
            }
            out.append(&mut block);
            proof {
                assert(out@ =~= out0 + m[ds[b as int]]);
                assert(restored_bytes(m, ds.skip(b as int)) == m[ds[b as int]] + restored_bytes(
                    m,
                    ds.skip(b + 1),
                ));
                assert(out@ + restored_bytes(m, ds.skip(b + 1)) =~= restored_bytes(m, ds));
            }
            b = b + 1;
        }
        proof {
            assert(ds.skip(b as int).len() == 0);
            assert(out@ + restored_bytes(m, ds.skip(b as int)) =~= out@);
        }
        Ok(out)
    }

    /// The recorded histories, as values.
    pub fn list_backups(&self) -> (r: Vec<BackupInfo>)
        ensures
            r@.len() == self.spec_infos().len(),
            forall|i: int| 0 <= i < r@.len() ==> (#[trigger] r@[i])@ == self.spec_infos()[i],
    {
        let mut r: Vec<BackupInfo> = Vec::new();
        let mut i: usize = 0;
        while i < self.infos.len()
            invariant
                i <= self.infos@.len(),
                r@.len() == i,
                forall|j: int| 0 <= j < i ==> (#[trigger] r@[j])@ == self.spec_infos()[j],
            decreases self.infos@.len() - i,
        {
            let c = self.infos[i].clone();
            proof {
                assert(c@ =~= self.spec_infos()[i as int]);
            }
            r.push(c);
            i = i + 1;
        }
        r
    }

    /// How many versions are recorded over all paths, saturating at the
    /// machine's limit.
    pub fn backup_count(&self) -> (r: usize)
        ensures
            total_versions(self.spec_infos()) <= usize::MAX ==> r == total_versions(
                self.spec_infos(),
            ),
            total_versions(self.spec_infos()) > usize::MAX ==> r == usize::MAX,
    {
        let mut acc: usize = 0;
        let mut i: usize = 0;
        while i < self.infos.len()
            invariant
                i <= self.infos@.len(),
                total_versions(self.spec_infos().take(i as int)) <= usize::MAX ==> acc
                    == total_versions(self.spec_infos().take(i as int)),
                total_versions(self.spec_infos().take(i as int)) > usize::MAX ==> acc == usize::MAX,
            decreases self.infos@.len() - i,
        {
            let l = self.infos[i].versions.len();
            proof {
                let pre = self.spec_infos().take(i as int);
                let cur = self.spec_infos().take(i + 1);
                assert(cur.drop_last() =~= pre);
                assert(cur.last() == self.spec_infos()[i as int]);
                assert(self.spec_infos()[i as int].versions.len() == l);
            }
            if acc > usize::MAX - l {
                acc = usize::MAX;
            } else {
                acc = acc + l;
            }
            i = i + 1;
        }
        proof {
            assert(self.spec_infos().take(i as int) =~= self.spec_infos());
        }
        acc
    }

    /// How many sealed block objects are stored; deduplication means one
    /// per distinct block digest.
    pub fn object_count(&self) -> (r: usize)
        ensures
            r == self.spec_object_count(),
    {
        self.store.len()
    }

    /// How many histories are recorded.
    pub fn path_count(&self) -> (r: usize)
        ensures
            r == self.spec_infos().len(),
    {
        self.infos.len()
    }

    /// The manifest file name for a source path: the digest of the path's
    /// bytes with a `.json` suffix.
    pub fn get_storage_path(&self, path: &str) -> (r: String)
        ensures
            r@ == digest_of(path.spec_bytes()) + ".json"@,
    {
        let bytes = path.as_bytes_vec();
        let mut name = crate::crypto::blake3_hex(&bytes);
        name.append(".json");
        name
    }

    /// The sharded relative location of a sealed block under the store
    /// root: the first two digest characters name the shard directory.
    pub fn get_block_path(&self, digest: &str) -> (r: String)
        requires
            digest.is_ascii(),
            digest@.len() >= 2,
        ensures
            r@ == "blocks/"@ + digest@.take(2) + "/"@ + digest@,
    {
        let sub = digest.substring_ascii(0, 2);
        let mut out = String::from_str("blocks/");
        out.append(sub);
        out.append("/");
        out.append(digest);
        out
    }
}

/// The content-addressing assumption for one backup: among the chunks
/// being stored and the contents already stored under their digests, equal
/// digests mean equal bytes.  A digest collision is the one situation this
/// excludes.
pub open spec fn collision_free(m: Map<Seq<char>, Seq<u8>>, cs: Seq<Seq<u8>>) -> bool {
    &&& forall|i: int, j: int|
        0 <= i < cs.len() && 0 <= j < cs.len() && digest_of(#[trigger] cs[i]) == digest_of(
            #[trigger] cs[j],
        ) ==> cs[i] == cs[j]
    &&& forall|i: int|
        0 <= i < cs.len() && m.contains_key(digest_of(#[trigger] cs[i])) ==> m[digest_of(cs[i])]
            == cs[i]
}

/// Content addressing: equal bytes map to the equal digest, and writing a
/// block under a digest that is already stored leaves the store as it was —
/// storing the same content twice produces exactly one object.
pub proof fn lemma_content_addressing(m: Map<Seq<char>, Seq<u8>>, b1: Seq<u8>, b2: Seq<u8>)
    requires
        b1 == b2,
    ensures
        digest_of(b1) == digest_of(b2),
        put_chunk(put_chunk(m, b1), b2) == put_chunk(m, b1),
{
}

proof fn lemma_restored_eq(m: Map<Seq<char>, Seq<u8>>, cs: Seq<Seq<u8>>)
    requires
        forall|i: int|
            0 <= i < cs.len() ==> m.contains_key(digest_of(#[trigger] cs[i])) && m[digest_of(
                cs[i],
            )] == cs[i],
    ensures
        restored_bytes(m, cs.map(|i: int, c: Seq<u8>| digest_of(c))) == crate::chunks::concat_chunks(
            cs,
        ),
    decreases cs.len(),
{
    let ds = cs.map(|i: int, c: Seq<u8>| digest_of(c));
    if cs.len() > 0 {
        lemma_restored_eq(m, cs.skip(1));
        assert(ds[0] == digest_of(cs[0]));
        assert(ds.skip(1) =~= cs.skip(1).map(|i: int, c: Seq<u8>| digest_of(c)));
        assert(m[ds[0]] == cs[0]);
    }
}

/// Round trip: back up `data`, then restore by the recorded block digests,
/// and the result is `data` byte for byte — including data whose length is
/// not a multiple of the block size — provided content addressing holds of
/// the digests involved (`collision_free`).
pub proof fn lemma_backup_restore_round_trip(m: Map<Seq<char>, Seq<u8>>, data: Seq<u8>, bs: nat)
    requires
        bs > 0,
        collision_free(m, chunks_of(data, bs)),
    ensures
        restored_bytes(put_chunks(m, chunks_of(data, bs)), block_digests(data, bs)) == data,
{
    let cs = chunks_of(data, bs);
    let m2 = put_chunks(m, cs);
    lemma_put_chunks_props(m, cs);
    assert forall|i: int| 0 <= i < cs.len() implies m2.contains_key(digest_of(#[trigger] cs[i]))
        && m2[digest_of(cs[i])] == cs[i] by {
        let d = digest_of(cs[i]);
        if m.contains_key(d) {
            assert(m2[d] == m[d]);
        } else {
            let j = choose|j: int|
                0 <= j < cs.len() && d == digest_of(#[trigger] cs[j]) && m2[d] == cs[j];
            assert(cs[j] == cs[i]);
        }
    }
    lemma_restored_eq(m2, cs);
    crate::chunks::lemma_chunks_concat(data, bs);
    assert(block_digests(data, bs) == cs.map(|i: int, c: Seq<u8>| digest_of(c)));
}

/// Idempotent backup: recording the same content again, with no change in
/// between, is a no-op — two backups of unchanged content produce exactly
/// one new version, not two.
pub proof fn lemma_backup_idempotent(
    vs: Seq<VersionView>,
    v1: VersionView,
    v2: VersionView,
    cap: nat,
    batch: nat,
)
    requires
        v2.file_hash == v1.file_hash,
        1 <= batch <= cap,
        vs.len() <= cap,
    ensures
        record_version(record_version(vs, v1, cap, batch), v2, cap, batch) == record_version(
            vs,
            v1,
            cap,
            batch,
        ),
{
    let after = record_version(vs, v1, cap, batch);
    if vs.len() > 0 && vs.last().file_hash == v1.file_hash {
    } else {
        let pushed = vs.push(numbered(v1, next_version_number(vs) as u64));
        assert(pushed.last().file_hash == v1.file_hash);
        if pushed.len() > cap {
            assert(after == pushed.skip(batch as int));
            assert(after.len() == pushed.len() - batch);
            assert(after.last() == pushed[batch + (pushed.len() - batch) - 1]);
            assert(after.last() == pushed.last());
        }
        assert(after.len() > 0 && after.last().file_hash == v2.file_hash);
    }
}

/// Version monotonicity: within any history of a well-formed store,
/// version numbers increase by exactly 1 from the first; as long as
/// nothing has been trimmed (the first version is number 1, as a first
/// backup records it), the numbers are exactly 1..N with no gaps.
pub proof fn lemma_version_monotonicity(s: Storage, path: Seq<char>)
    requires
        s.wf(),
        has_info(s.spec_infos(), path),
    ensures
        ({
            let vs = versions_of(s.spec_infos(), path);
            &&& forall|i: int|
                0 <= i < vs.len() ==> (#[trigger] vs[i].version) == vs[0].version + i
            &&& (vs.len() > 0 && vs[0].version == 1 ==> forall|i: int|
                0 <= i < vs.len() ==> (#[trigger] vs[i].version) == i + 1)
        }),
{
    let idx = info_idx(s.spec_infos(), path);
    assert(versions_wf(s.spec_infos()[idx].versions, s.spec_cap(), s.spec_chunks().dom()));
}

/// Recording a sequence of offered versions, in order.
pub open spec fn record_all(
    vs: Seq<VersionView>,
    offered: Seq<VersionView>,
    cap: nat,
    batch: nat,
) -> Seq<VersionView>
    decreases offered.len(),
{
    if offered.len() == 0 {
        vs
    } else {
        record_all(record_version(vs, offered[0], cap, batch), offered.skip(1), cap, batch)
    }
}

proof fn lemma_record_all_appends(
    vs: Seq<VersionView>,
    offered: Seq<VersionView>,
    cap: nat,
    batch: nat,
)
    requires
        1 <= batch <= cap,
        vs.len() + offered.len() <= cap,
        forall|i: int| 0 <= i < vs.len() ==> (#[trigger] vs[i].version) == vs[0].version + i,
        vs.len() > 0 && offered.len() > 0 ==> offered[0].file_hash != vs.last().file_hash,
        forall|i: int|
            1 <= i < offered.len() ==> (#[trigger] offered[i].file_hash) != offered[i
                - 1].file_hash,
        next_version_number(vs) + offered.len() <= u64::MAX + 1,
    ensures
        ({
            let base = next_version_number(vs);
            record_all(vs, offered, cap, batch) =~= vs + Seq::new(
                offered.len(),
                |i: int| numbered(offered[i], (base + i) as u64),
            )
        }),
    decreases offered.len(),
{
    let base = next_version_number(vs);
    if offered.len() == 0 {
        assert(record_all(vs, offered, cap, batch) =~= vs + Seq::new(
            0,
            |i: int| numbered(offered[i], (base + i) as u64),
        ));
    } else {
        let first = numbered(offered[0], base as u64);
        let stepped = record_version(vs, offered[0], cap, batch);
        assert(vs.push(first).len() <= cap);
        assert(stepped =~= vs.push(first));
        assert forall|i: int| 0 <= i < stepped.len() implies (#[trigger] stepped[i].version)
            == stepped[0].version + i by {
            if vs.len() == 0 {
            } else if i < vs.len() {
                assert(stepped[i] == vs[i]);
            } else {
                assert(stepped[i] == first);
            }
        }
        let rest = offered.skip(1);
        assert(stepped.last() == first);
        assert(rest.len() > 0 ==> rest[0].file_hash != stepped.last().file_hash);
        assert forall|i: int| 1 <= i < rest.len() implies (#[trigger] rest[i].file_hash) != rest[i
            - 1].file_hash by {
            assert(rest[i] == offered[i + 1]);
            assert(rest[i - 1] == offered[i]);
        }
        assert(next_version_number(stepped) == base + 1);
        lemma_record_all_appends(stepped, rest, cap, batch);
        let tail_stepped = Seq::new(rest.len(), |i: int| numbered(rest[i], (base + 1 + i) as u64));
        assert(record_all(vs, offered, cap, batch) =~= stepped + tail_stepped);
        let tail = Seq::new(offered.len(), |i: int| numbered(offered[i], (base + i) as u64));
        assert forall|k: int| 0 <= k < (vs + tail).len() implies (stepped + tail_stepped)[k] == (vs
            + tail)[k] by {
            if k < vs.len() {
            } else if k == vs.len() {
                assert((stepped + tail_stepped)[k] == first);
                assert((vs + tail)[k] == tail[0]);
            } else {
                assert((stepped + tail_stepped)[k] == tail_stepped[k - vs.len() - 1]);
                assert((vs + tail)[k] == tail[k - vs.len()]);
                assert(tail_stepped[k - vs.len() - 1] == numbered(
                    offered[k - vs.len()],
                    (base + (k - vs.len())) as u64,
                ));
            }
        }
        assert(record_all(vs, offered, cap, batch) =~= vs + tail);
    }
}

/// Version monotonicity, from the start: recording `N` distinct-content
/// versions into an empty history (with `N` within the cap, so nothing is
/// trimmed) numbers them exactly 1..N, in order, with no gaps.
pub proof fn lemma_distinct_backups_number_one_to_n(
    offered: Seq<VersionView>,
    cap: nat,
    batch: nat,
)
    requires
        1 <= batch <= cap,
        offered.len() <= cap,
        offered.len() <= u64::MAX,
        forall|i: int|
            1 <= i < offered.len() ==> (#[trigger] offered[i].file_hash) != offered[i
                - 1].file_hash,
    ensures
        record_all(Seq::empty(), offered, cap, batch).len() == offered.len(),
        forall|i: int|
            0 <= i < offered.len() ==> (#[trigger] record_all(
                Seq::empty(),
                offered,
                cap,
                batch,
            )[i]) == numbered(offered[i], (i + 1) as u64),
{
    lemma_record_all_appends(Seq::empty(), offered, cap, batch);
    let tail = Seq::new(offered.len(), |i: int| numbered(offered[i], (1 + i) as u64));
    assert(record_all(Seq::empty(), offered, cap, batch) =~= Seq::<VersionView>::empty() + tail);
    assert forall|i: int| 0 <= i < offered.len() implies (#[trigger] record_all(
        Seq::empty(),
        offered,
        cap,
        batch,
    )[i]) == numbered(offered[i], (i + 1) as u64) by {
        assert((Seq::<VersionView>::empty() + tail)[i] == tail[i]);
    }
}

/// Retention: recording a changed version onto a history at the cap trims
/// the oldest `batch` versions from the front; the count lands within
/// [cap - batch, cap], and what remains is exactly the newest tail of the
/// appended history, in order.
pub proof fn lemma_retention(vs: Seq<VersionView>, v: VersionView, cap: nat, batch: nat)
    requires
        1 <= batch <= cap,
        vs.len() == cap,
        vs.len() > 0 ==> vs.last().file_hash != v.file_hash,
    ensures
        ({
            let after = record_version(vs, v, cap, batch);
            let pushed = vs.push(numbered(v, next_version_number(vs) as u64));
            &&& after.len() == cap + 1 - batch
            &&& cap - batch <= after.len() <= cap
            &&& forall|i: int|
                0 <= i < after.len() ==> (#[trigger] after[i]) == pushed[pushed.len() - after.len()
                    + i]
        }),
{
    let after = record_version(vs, v, cap, batch);
    let pushed = vs.push(numbered(v, next_version_number(vs) as u64));
    assert(after == pushed.skip(batch as int));
}

/// Backing up changed data and then restoring the path's latest version
/// returns the data byte for byte: the round trip at the version-manager
/// level, under the content-addressing assumption.
pub proof fn lemma_backup_then_restore(
    m: Map<Seq<char>, Seq<u8>>,
    vs: Seq<VersionView>,
    data: Seq<u8>,
    bs: nat,
    timestamp: u64,
    metadata: FileMetadata,
    cap: nat,
    batch: nat,
)
    requires
        bs > 0,
        1 <= batch <= cap,
        vs.len() <= cap,
        collision_free(m, chunks_of(data, bs)),
        vs.len() > 0 ==> vs.last().file_hash != digest_of(data),
    ensures
        ({
            let v = offered_version(data, bs, timestamp, metadata);
            let vs2 = record_version(vs, v, cap, batch);
            let m2 = put_chunks(m, chunks_of(data, bs));
            match select_version(vs2, None) {
                Some(w) => restored_bytes(m2, w.block_hashes) == data,
                None => false,
            }
        }),
{
    let v = offered_version(data, bs, timestamp, metadata);
    let vs2 = record_version(vs, v, cap, batch);
    let pushed = vs.push(numbered(v, next_version_number(vs) as u64));
    if pushed.len() > cap {
        assert(vs2 == pushed.skip(batch as int));
        assert(vs2.len() == pushed.len() - batch);
        assert(vs2.last() == pushed[batch + (pushed.len() - batch) - 1]);
    }
    assert(vs2.len() > 0);
    assert(vs2.last() == numbered(v, next_version_number(vs) as u64));
    assert(vs2.last().block_hashes == block_digests(data, bs));
    lemma_backup_restore_round_trip(m, data, bs);
}

/// How many versions all histories hold together.
pub open spec fn total_versions(infos: Seq<InfoView>) -> nat
    decreases infos.len(),
{
    if infos.len() == 0 {
        0
    } else {
        total_versions(infos.drop_last()) + infos.last().versions.len()
    }
}

} // verus!
