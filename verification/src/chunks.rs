//! Fixed-size chunking of byte strings: the unit of storage and change
//! detection for the backup engine.

use vstd::prelude::*;

verus! {

/// The blocks of `data` when split at size `bs`: every block holds exactly
/// `bs` bytes except the final one, which holds the (non-empty) remainder.
/// Empty data has no blocks.
pub open spec fn chunks_of(data: Seq<u8>, bs: nat) -> Seq<Seq<u8>>
    decreases data.len(),
{
    if bs == 0 || data.len() == 0 {
        Seq::empty()
    } else if data.len() <= bs {
        seq![data]
    } else {
        seq![data.take(bs as int)] + chunks_of(data.skip(bs as int), bs)
    }
}

/// Concatenation of a sequence of blocks, in order.
pub open spec fn concat_chunks(cs: Seq<Seq<u8>>) -> Seq<u8>
    decreases cs.len(),
{
    if cs.len() == 0 {
        Seq::empty()
    } else {
        cs[0] + concat_chunks(cs.skip(1))
    }
}

/// The mathematical contents of a vector of byte vectors.
pub open spec fn views_of(r: Seq<Vec<u8>>) -> Seq<Seq<u8>> {
    Seq::new(r.len(), |i: int| r[i]@)
}

proof fn lemma_concat_unfold(x: Seq<u8>, rest: Seq<Seq<u8>>)
    ensures
        concat_chunks(seq![x] + rest) =~= x + concat_chunks(rest),
{
    let whole = seq![x] + rest;
    assert(whole[0] == x);
    assert(whole.skip(1) =~= rest);
}

/// Splitting and concatenating are inverse: the blocks of `data`, put back
/// together in order, are `data` again (including data whose length is not a
/// multiple of the block size).
pub proof fn lemma_chunks_concat(data: Seq<u8>, bs: nat)
    requires
        bs > 0,
    ensures
        concat_chunks(chunks_of(data, bs)) =~= data,
    decreases data.len(),
{
    if data.len() == 0 {
    } else if data.len() <= bs {
        assert(chunks_of(data, bs) =~= seq![data]);
        lemma_concat_unfold(data, Seq::empty());
        assert(seq![data] + Seq::<Seq<u8>>::empty() =~= seq![data]);
    } else {
        lemma_chunks_concat(data.skip(bs as int), bs);
        lemma_concat_unfold(data.take(bs as int), chunks_of(data.skip(bs as int), bs));
        assert(data.take(bs as int) + data.skip(bs as int) =~= data);
    }
}

/// Every block is non-empty and no longer than the block size.
pub proof fn lemma_chunks_sizes(data: Seq<u8>, bs: nat)
    requires
        bs > 0,
    ensures
        forall|i: int|
            0 <= i < chunks_of(data, bs).len() ==> 0 < (#[trigger] chunks_of(data, bs)[i]).len()
                <= bs,
    decreases data.len(),
{
    if data.len() == 0 {
    } else if data.len() <= bs {
    } else {
        lemma_chunks_sizes(data.skip(bs as int), bs);
        let cs = chunks_of(data, bs);
        let rest = chunks_of(data.skip(bs as int), bs);
        assert forall|i: int| 0 <= i < cs.len() implies 0 < (#[trigger] cs[i]).len() <= bs by {
            if i > 0 {
                assert(cs[i] == rest[i - 1]);
            }
        }
    }
}

/// Splits `data` into blocks of `bs` bytes; the final block holds the
/// remainder and may be shorter (it is never padded).
pub fn split_chunks(data: &Vec<u8>, bs: usize) -> (r: Vec<Vec<u8>>)
    requires
        bs >= 1,
    ensures
        views_of(r@) =~= chunks_of(data@, bs as nat),
{
    let mut r: Vec<Vec<u8>> = Vec::new();
    let mut pos: usize = 0;
    let len = data.len();
    proof {
        assert(views_of(r@) =~= Seq::<Seq<u8>>::empty());
        assert(data@.skip(0) =~= data@);
        assert(views_of(r@) + chunks_of(data@, bs as nat) =~= chunks_of(data@, bs as nat));
    }
    while pos < len
        invariant
            pos <= len,
            len == data@.len(),
            bs >= 1,
            views_of(r@) + chunks_of(data@.skip(pos as int), bs as nat) =~= chunks_of(
                data@,
                bs as nat,
            ),
        decreases len - pos,
    {
        let end = if len - pos < bs {
            len
        } else {
            pos + bs
        };
        let chunk = vstd::slice::slice_to_vec(
            vstd::slice::slice_subrange(data.as_slice(), pos, end),
        );
        let ghost prev = r@;
        let ghost tail = data@.skip(pos as int);
        r.push(chunk);
        proof {
            assert(views_of(r@) =~= views_of(prev).push(chunk@));
            assert(tail.len() > 0);
            if tail.len() <= bs {
                assert(chunks_of(tail, bs as nat) =~= seq![tail]);
                assert(chunk@ =~= tail);
                assert(data@.skip(end as int).len() == 0);
                assert(views_of(prev).push(chunk@) + chunks_of(data@.skip(end as int), bs as nat)
                    =~= views_of(prev) + chunks_of(tail, bs as nat));
            } else {
                assert(chunk@ =~= tail.take(bs as int));
                assert(data@.skip(end as int) =~= tail.skip(bs as int));
                assert(chunks_of(tail, bs as nat) =~= seq![tail.take(bs as int)] + chunks_of(
                    tail.skip(bs as int),
                    bs as nat,
                ));
                assert(views_of(prev).push(chunk@) + chunks_of(data@.skip(end as int), bs as nat)
                    =~= views_of(prev) + chunks_of(tail, bs as nat));
            }
        }
        pos = end;
    }
    proof {
        assert(data@.skip(pos as int).len() == 0);
        assert(views_of(r@) + chunks_of(data@.skip(pos as int), bs as nat) =~= views_of(r@));
    }
    r
}

} // verus!
