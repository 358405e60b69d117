//! Snapshot manifests: the per-snapshot record of files and digests that
//! the directory-snapshot flow writes, and the selection of the latest
//! manifest by name.  Manifest names embed their creation timestamp, so
//! lexicographic order is chronological order.

use vstd::prelude::*;

verus! {

/// One file of a snapshot: its path relative to the source root, its
/// size, and its content digest.
#[derive(Debug)]
pub struct FileEntry {
    pub rel_path: String,
    pub size: u64,
    pub blake3: String,
}

/// A point-in-time snapshot of a directory tree: an identifier, the
/// creation time as text, and the files captured.
#[derive(Debug)]
pub struct SnapshotManifest {
    pub snapshot_id: String,
    pub created_at_utc: String,
    pub files: Vec<FileEntry>,
}

/// Strict lexicographic order on text, by code point; a proper prefix
/// sorts first.
pub open spec fn lex_lt(a: Seq<char>, b: Seq<char>) -> bool
    decreases a.len(),
{
    if b.len() == 0 {
        false
    } else if a.len() == 0 {
        true
    } else if (a[0] as int) < (b[0] as int) {
        true
    } else if (a[0] as int) > (b[0] as int) {
        false
    } else {
        lex_lt(a.skip(1), b.skip(1))
    }
}

/// Nothing sorts before itself.
pub proof fn lemma_lex_lt_irrefl(a: Seq<char>)
    ensures
        !lex_lt(a, a),
    decreases a.len(),
{
    if a.len() > 0 {
        lemma_lex_lt_irrefl(a.skip(1));
    }
}

/// Lexicographic order is transitive.
pub proof fn lemma_lex_lt_trans(a: Seq<char>, b: Seq<char>, c: Seq<char>)
    requires
        lex_lt(a, b),
        lex_lt(b, c),
    ensures
        lex_lt(a, c),
    decreases a.len(),
{
    if a.len() == 0 {
    } else {
        assert(b.len() > 0);
        assert(c.len() > 0);
        if (a[0] as int) == (b[0] as int) && (b[0] as int) == (c[0] as int) {
            lemma_lex_lt_trans(a.skip(1), b.skip(1), c.skip(1));
        }
    }
}

/// Compares text lexicographically.
pub fn str_lt(a: &str, b: &str) -> (r: bool)
    ensures
        r == lex_lt(a@, b@),
{
    let an = a.unicode_len();
    let bn = b.unicode_len();
    let mut i: usize = 0;
    proof {
        assert(a@.skip(0) =~= a@);
        assert(b@.skip(0) =~= b@);
    }
    while i < an && i < bn
        invariant
            i <= an,
            i <= bn,
            an == a@.len(),
            bn == b@.len(),
            lex_lt(a@, b@) == lex_lt(a@.skip(i as int), b@.skip(i as int)),
        decreases an - i,
    {
        let ca = a.get_char(i);
        let cb = b.get_char(i);
        proof {
            assert(a@.skip(i as int)[0] == a@[i as int]);
            assert(b@.skip(i as int)[0] == b@[i as int]);
        }
        if (ca as u32) < (cb as u32) {
            return true;
        }
        if (ca as u32) > (cb as u32) {
            return false;
        }
        proof {
            assert(a@.skip(i as int).skip(1) =~= a@.skip(i + 1));
            assert(b@.skip(i as int).skip(1) =~= b@.skip(i + 1));
        }
        i = i + 1;
    }
    proof {
        if i == bn {
            assert(b@.skip(i as int).len() == 0);
        } else {
            assert(a@.skip(i as int).len() == 0);
            assert(b@.skip(i as int).len() > 0);
        }
    }
    i < bn
}

/// The lexicographically greatest of the given names: with timestamped
/// manifest names, the latest snapshot.  Nothing comes back only from an
/// empty list.
#[verifier::loop_isolation(false)]
pub fn latest_manifest(names: &Vec<String>) -> (r: Option<String>)
    ensures
        match r {
            Some(m) => (exists|i: int|
                0 <= i < names.deep_view().len() && names.deep_view()[i] == m@) && forall|i: int|
                0 <= i < names.deep_view().len() ==> !lex_lt(m@, #[trigger] names.deep_view()[i]),
            None => names@.len() == 0,
        },
{
    let ghost dv = names.deep_view();
    if names.len() == 0 {
        return None;
    }
    let mut best: usize = 0;
    let mut i: usize = 1;
    proof {
        lemma_lex_lt_irrefl(dv[0]);
    }
    while i < names.len()
        invariant
            1 <= i <= dv.len(),
            best < i,
            forall|j: int| 0 <= j < i ==> !lex_lt(dv[best as int], #[trigger] dv[j]),
        decreases dv.len() - i,
    {
        let better = str_lt(names[best].as_str(), names[i].as_str());
        proof {
            assert(dv[best as int] == names@[best as int]@);
            assert(dv[i as int] == names@[i as int]@);
        }
        if better {
            proof {
                let ghost nb = i as int;
                lemma_lex_lt_irrefl(dv[nb]);
                assert forall|j: int| 0 <= j < i + 1 implies !lex_lt(dv[nb], #[trigger] dv[j]) by {
                    if j < i && lex_lt(dv[nb], dv[j]) {
                        lemma_lex_lt_trans(dv[best as int], dv[nb], dv[j]);
                    }
                }
            }
            best = i;
        } else {
            proof {
                assert(!lex_lt(dv[best as int], dv[i as int]));
            }
        }
        i = i + 1;
    }
    let m = names[best].clone();
    proof {
        assert(dv[best as int] == m@);
    }
    Some(m)
}

} // verus!
