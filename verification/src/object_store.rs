//! The object store: content-addressed payload storage keyed by digest,
//! with write-if-absent semantics.  Identical digests resolve to one stored
//! object, which is what makes deduplication work.

use vstd::prelude::*;

verus! {

struct ObjectEntry {
    digest: String,
    payload: Vec<u8>,
}

/// The pairs a store holds, in insertion order.
spec fn entries_view(entries: Seq<ObjectEntry>) -> Seq<(Seq<char>, Seq<u8>)> {
    Seq::new(entries.len(), |i: int| (entries[i].digest@, entries[i].payload@))
}

/// The map from digest to payload that a sequence of entries denotes; a
/// later entry for the same digest would win, though a well-formed store
/// never holds two.
spec fn map_of(s: Seq<(Seq<char>, Seq<u8>)>) -> Map<Seq<char>, Seq<u8>>
    decreases s.len(),
{
    if s.len() == 0 {
        Map::empty()
    } else {
        map_of(s.drop_last()).insert(s.last().0, s.last().1)
    }
}

proof fn lemma_map_of_contains(s: Seq<(Seq<char>, Seq<u8>)>, d: Seq<char>)
    ensures
        map_of(s).contains_key(d) <==> exists|i: int| 0 <= i < s.len() && s[i].0 == d,
    decreases s.len(),
{
    if s.len() > 0 {
        lemma_map_of_contains(s.drop_last(), d);
        if map_of(s).contains_key(d) {
            if s.last().0 != d {
                let i = choose|i: int| 0 <= i < s.drop_last().len() && s.drop_last()[i].0 == d;
                assert(s[i].0 == d);
            }
        }
        if exists|i: int| 0 <= i < s.len() && s[i].0 == d {
            let i = choose|i: int| 0 <= i < s.len() && s[i].0 == d;
            if i < s.len() - 1 {
                assert(s.drop_last()[i].0 == d);
            }
        }
    }
}

proof fn lemma_map_of_get(s: Seq<(Seq<char>, Seq<u8>)>, i: int)
    requires
        0 <= i < s.len(),
        forall|j: int| i < j < s.len() ==> s[j].0 != s[i].0,
    ensures
        map_of(s).contains_key(s[i].0),
        map_of(s)[s[i].0] == s[i].1,
    decreases s.len(),
{
    if i == s.len() - 1 {
    } else {
        assert(forall|j: int| i < j < s.drop_last().len() ==> s.drop_last()[j].0 != s[i].0);
        lemma_map_of_get(s.drop_last(), i);
        assert(s.drop_last()[i] == s[i]);
    }
}

/// Content-addressed block storage: each payload is stored under its
/// digest, at most once.
pub struct ObjectStore {
    entries: Vec<ObjectEntry>,
}

impl View for ObjectStore {
    type V = Map<Seq<char>, Seq<u8>>;

    closed spec fn view(&self) -> Map<Seq<char>, Seq<u8>> {
        map_of(entries_view(self.entries@))
    }
}

impl ObjectStore {
    /// No digest is stored twice.
    pub closed spec fn wf(self) -> bool {
        forall|i: int, j: int|
            0 <= i < j < self.entries@.len() ==> (#[trigger] self.entries@[i].digest@) != (
            #[trigger] self.entries@[j].digest@)
    }

    /// How many objects the store holds.
    pub closed spec fn spec_len(self) -> nat {
        self.entries@.len()
    }

    pub fn new() -> (r: Self)
        ensures
            r.wf(),
            r@ == Map::<Seq<char>, Seq<u8>>::empty(),
            r.spec_len() == 0,
    {
        let r = ObjectStore { entries: Vec::new() };
        proof {
            assert(entries_view(r.entries@) =~= Seq::<(Seq<char>, Seq<u8>)>::empty());
        }
        r
    }

    pub fn len(&self) -> (r: usize)
        ensures
            r == self.spec_len(),
    {
        self.entries.len()
    }

    /// Whether an object with this digest is stored.
    pub fn contains(&self, digest: &String) -> (r: bool)
        ensures
            r == self@.contains_key(digest@),
    {
        let ghost ev = entries_view(self.entries@);
        let mut i: usize = 0;
        proof {
            lemma_map_of_contains(ev, digest@);
        }
        while i < self.entries.len()
            invariant
                i <= self.entries@.len(),
                ev == entries_view(self.entries@),
                forall|j: int| 0 <= j < i ==> (#[trigger] ev[j]).0 != digest@,
                self@.contains_key(digest@) <==> exists|j: int|
                    0 <= j < ev.len() && (#[trigger] ev[j]).0 == digest@,
            decreases self.entries@.len() - i,
        {
            let same = self.entries[i].digest.eq(digest);
            proof {
                assert(ev[i as int].0 == self.entries@[i as int].digest@);
            }
            if same {
                return true;
            }
            i = i + 1;
        }
        false
    }

    /// The payload stored under `digest`, if any.
    pub fn get(&self, digest: &String) -> (r: Option<&Vec<u8>>)
        requires
            self.wf(),
        ensures
            match r {
                Some(p) => self@.contains_key(digest@) && self@[digest@] == p@,
                None => !self@.contains_key(digest@),
            },
    {
        let ghost ev = entries_view(self.entries@);
        let mut i: usize = 0;
        proof {
            lemma_map_of_contains(ev, digest@);
        }
        while i < self.entries.len()
            invariant
                self.wf(),
                i <= self.entries@.len(),
                ev == entries_view(self.entries@),
                forall|j: int| 0 <= j < i ==> (#[trigger] ev[j]).0 != digest@,
                self@.contains_key(digest@) <==> exists|j: int|
                    0 <= j < ev.len() && (#[trigger] ev[j]).0 == digest@,
            decreases self.entries@.len() - i,
        {
            let same = self.entries[i].digest.eq(digest);
            proof {
                assert(ev[i as int].0 == self.entries@[i as int].digest@);
            }
            if same {
                proof {
                    let ii = i as int;
                    assert forall|j: int| ii < j < ev.len() implies (#[trigger] ev[j]).0
                        != ev[ii].0 by {
                        assert(ev[j].0 == self.entries@[j].digest@);
                    }
                    lemma_map_of_get(ev, ii);
                }
                return Some(&self.entries[i].payload);
            }
            i = i + 1;
        }
        None
    }

    /// Stores `payload` under `digest` unless an object with that digest
    /// already exists, in which case nothing changes: the write is
    /// idempotent by construction.
    pub fn put_if_absent(&mut self, digest: String, payload: Vec<u8>)
        requires
            old(self).wf(),
        ensures
            final(self).wf(),
            final(self)@ == if old(self)@.contains_key(digest@) {
                old(self)@
            } else {
                old(self)@.insert(digest@, payload@)
            },
            final(self).spec_len() == old(self).spec_len() + if old(self)@.contains_key(digest@) {
                0int
            } else {
                1int
            },
    {
        if self.contains(&digest) {
            return ;
        }
        let ghost prior = entries_view(self.entries@);
        let ghost d = digest@;
        proof {
            lemma_map_of_contains(prior, d);
        }
        self.entries.push(ObjectEntry { digest, payload });
        proof {
            let now = entries_view(self.entries@);
            assert(now.drop_last() =~= prior);
            assert(now.last().0 == d);
            assert forall|a: int, b: int| 0 <= a < b < self.entries@.len() implies (
            #[trigger] self.entries@[a].digest@) != (#[trigger] self.entries@[b].digest@) by {
                if b == self.entries@.len() - 1 {
                    assert(prior[a].0 == self.entries@[a].digest@);
                    assert(self.entries@[b].digest@ == d);
                } else {
                    assert(old(self).entries@[a].digest@ != old(self).entries@[b].digest@);
                }
            }
        }
    }
}

/// The sharded relative location of an object on disk: the first two
/// digest characters name the directory, the rest name the file, which
/// keeps any one directory small.
pub fn object_path(digest: &str) -> (r: String)
    requires
        digest.is_ascii(),
        digest@.len() >= 2,
    ensures
        r@ == "objects/"@ + digest@.take(2) + "/"@ + digest@.skip(2),
{
    let n = digest.unicode_len();
    let dir = digest.substring_ascii(0, 2);
    let rest = digest.substring_ascii(2, n);
    let mut out = String::from_str("objects/");
    out.append(dir);
    out.append("/");
    out.append(rest);
    out
}

} // verus!
