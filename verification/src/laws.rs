//! The library's general laws, proved once and for all over the pool model.
//!
//! Each lemma states a guarantee of the buffer protocol for every pool state
//! that satisfies the model invariant, not just for the states a particular
//! program reaches.

use crate::pool::PoolModel;
use crate::slice::SliceModel;
use vstd::prelude::*;

verus! {

/// The concatenation, in order, of a sequence of byte batches.
pub open spec fn concat_all(batches: Seq<Seq<u8>>) -> Seq<u8>
    decreases batches.len(),
{
    if batches.len() == 0 {
        Seq::empty()
    } else {
        concat_all(batches.drop_last()) + batches.last()
    }
}

/// The pool after appending each batch of `batches`, in order, to slot `id`.
pub open spec fn fill_all(m: PoolModel, id: int, batches: Seq<Seq<u8>>) -> PoolModel
    decreases batches.len(),
{
    if batches.len() == 0 {
        m
    } else {
        fill_all(m, id, batches.drop_last()).fill(id, batches.last())
    }
}

/// One append preserves the pool invariant and touches nothing but the
/// committed boundary and the bytes right behind it: the old committed
/// prefix is untouched, the truncated batch lands after it, the commit
/// position never passes the capacity, and every other slot is unchanged.
pub proof fn lemma_fill_step(m: PoolModel, id: int, bytes: Seq<u8>)
    requires
        m.inv(),
        m.is_live(id),
    ensures
        ({
            let m2 = m.fill(id, bytes);
            let n = m.fill_len(id, bytes);
            &&& m2.inv()
            &&& m2.is_live(id)
            &&& 0 <= n <= bytes.len()
            &&& m2.committed(id) == m.committed(id) + n
            &&& m2.committed(id) <= m.capacity()
            &&& m2.rc(id) == m.rc(id)
            &&& m2.frees == m.frees
            &&& m2.block_size == m.block_size
            &&& m2.num_blocks() == m.num_blocks()
            &&& m2.data(id).len() == m.data(id).len()
            &&& m2.remaining(id) == m.remaining(id) - n
            &&& m2.data(id).subrange(0, m.committed(id)) == m.data(id).subrange(
                0,
                m.committed(id),
            )
            &&& m2.data(id).subrange(m.committed(id), m.committed(id) + n) == bytes.subrange(0, n)
            &&& forall|j: int| m.in_bounds(j) && j != id ==> m2.slots[j] == m.slots[j]
        }),
{
    let m2 = m.fill(id, bytes);
    let n = m.fill_len(id, bytes);
    let c = m.committed(id);
    assert(m2.data(id).len() == m.data(id).len());
    assert(m2.data(id).subrange(0, c) =~= m.data(id).subrange(0, c));
    assert(m2.data(id).subrange(c, c + n) =~= bytes.subrange(0, n));
}

/// An append past the remaining space writes exactly `remaining()` bytes and
/// saturates the commit position at the capacity, never beyond it.
pub proof fn lemma_fill_saturates(m: PoolModel, id: int, bytes: Seq<u8>)
    requires
        m.inv(),
        m.is_live(id),
        bytes.len() >= m.remaining(id),
    ensures
        m.fill_len(id, bytes) == m.remaining(id),
        m.fill(id, bytes).committed(id) == m.capacity(),
{
    lemma_fill_step(m, id, bytes);
}

/// A sequence of appends whose total length fits in the remaining space
/// commits every byte: afterwards the bytes behind the old commit position
/// are exactly the concatenation of the batches, in order, and the old
/// committed prefix is untouched.
pub proof fn lemma_fill_all_concat(m: PoolModel, id: int, batches: Seq<Seq<u8>>)
    requires
        m.inv(),
        m.is_live(id),
        concat_all(batches).len() <= m.remaining(id),
    ensures
        ({
            let m2 = fill_all(m, id, batches);
            &&& m2.inv()
            &&& m2.is_live(id)
            &&& m2.data(id).len() == m.data(id).len()
            &&& m2.committed(id) == m.committed(id) + concat_all(batches).len()
            &&& m2.data(id).subrange(0, m.committed(id)) == m.data(id).subrange(
                0,
                m.committed(id),
            )
            &&& m2.data(id).subrange(m.committed(id), m2.committed(id)) == concat_all(batches)
        }),
    decreases batches.len(),
{
    let m2 = fill_all(m, id, batches);
    let c = m.committed(id);
    if batches.len() == 0 {
        assert(m2.data(id).subrange(c, c) =~= concat_all(batches));
        assert(m2.data(id).subrange(0, c) =~= m.data(id).subrange(0, c));
    } else {
        let bp = batches.drop_last();
        let lb = batches.last();
        let m1 = fill_all(m, id, bp);
        let l1 = concat_all(bp).len() as int;
        let ln = lb.len() as int;
        assert(concat_all(batches) == concat_all(bp) + lb);
        lemma_fill_all_concat(m, id, bp);
        lemma_fill_step(m1, id, lb);
        let n = m1.fill_len(id, lb);
        assert(n == ln);
        assert forall|k: int| 0 <= k < c + l1 implies m2.data(id)[k] == m1.data(id)[k] by {
            assert(m2.data(id).subrange(0, c + l1)[k] == m1.data(id).subrange(0, c + l1)[k]);
        }
        assert forall|k: int| 0 <= k < c implies m1.data(id)[k] == m.data(id)[k] by {
            assert(m1.data(id).subrange(0, c)[k] == m.data(id).subrange(0, c)[k]);
        }
        assert(m2.data(id).subrange(0, c) =~= m.data(id).subrange(0, c));
        assert forall|k: int| 0 <= k < l1 implies m1.data(id)[c + k] == concat_all(bp)[k] by {
            assert(m1.data(id).subrange(c, c + l1)[k] == concat_all(bp)[k]);
        }
        assert forall|k: int| 0 <= k < ln implies m2.data(id)[c + l1 + k] == lb[k] by {
            assert(m2.data(id).subrange(c + l1, c + l1 + ln)[k] == lb.subrange(0, ln)[k]);
        }
        assert(m2.data(id).subrange(c, m2.committed(id)) =~= concat_all(batches));
    }
}

/// Snapshot isolation for one append: a view whose window lies inside the
/// committed prefix reads exactly the same bytes after the append, and stays
/// valid.
pub proof fn lemma_fill_view_isolation(m: PoolModel, id: int, bytes: Seq<u8>, s: SliceModel)
    requires
        m.inv(),
        m.is_live(id),
        s.inv(m),
    ensures
        s.inv(m.fill(id, bytes)),
        s.read(m.fill(id, bytes)) == s.read(m),
{
    let m2 = m.fill(id, bytes);
    lemma_fill_step(m, id, bytes);
    if s.id == id {
        let c = m.committed(id);
        assert forall|k: int| 0 <= k < c implies m2.data(id)[k] == m.data(id)[k] by {
            assert(m2.data(id).subrange(0, c)[k] == m.data(id).subrange(0, c)[k]);
        }
        assert(s.read(m2) =~= s.read(m));
    } else {
        assert(m2.slots[s.id] == m.slots[s.id]);
        assert(s.read(m2) =~= s.read(m));
    }
}

/// Snapshot isolation for any number of later appends: a view taken when the
/// commit position was at or past its window reads the same bytes however
/// many appends follow.
pub proof fn lemma_fill_all_view_isolation(
    m: PoolModel,
    id: int,
    batches: Seq<Seq<u8>>,
    s: SliceModel,
)
    requires
        m.inv(),
        m.is_live(id),
        s.inv(m),
    ensures
        ({
            let m2 = fill_all(m, id, batches);
            &&& m2.inv()
            &&& m2.is_live(id)
            &&& s.inv(m2)
            &&& s.read(m2) == s.read(m)
        }),
    decreases batches.len(),
{
    if batches.len() > 0 {
        let bp = batches.drop_last();
        let lb = batches.last();
        let m1 = fill_all(m, id, bp);
        lemma_fill_all_view_isolation(m, id, bp, s);
        lemma_fill_step(m1, id, lb);
        lemma_fill_view_isolation(m1, id, lb, s);
    }
}

/// A write into the reserved region never mutates already-committed bytes:
/// the commit position stays put, the committed prefix is unchanged, and
/// every valid view still reads exactly the same bytes.
pub proof fn lemma_write_reserved_view_isolation(
    m: PoolModel,
    id: int,
    i: int,
    b: u8,
    s: SliceModel,
)
    requires
        m.inv(),
        m.is_live(id),
        0 <= i < m.remaining(id),
        s.inv(m),
    ensures
        ({
            let m2 = m.write_reserved(id, i, b);
            &&& m2.inv()
            &&& m2.committed(id) == m.committed(id)
            &&& m2.data(id).subrange(0, m.committed(id)) == m.data(id).subrange(
                0,
                m.committed(id),
            )
            &&& s.inv(m2)
            &&& s.read(m2) == s.read(m)
        }),
{
    let m2 = m.write_reserved(id, i, b);
    let c = m.committed(id);
    assert(m2.data(id).subrange(0, c) =~= m.data(id).subrange(0, c));
    assert(s.read(m2) =~= s.read(m));
}

/// Taking a sub-view `k` bytes in and then cutting it to length zero yields
/// an empty, still-valid view, for any `k` up to the view's length.
pub proof fn lemma_sub_from_then_to_empty(m: PoolModel, s: SliceModel, k: int)
    requires
        m.inv(),
        s.inv(m),
        0 <= k <= s.len,
    ensures
        s.sub_from(k).sub_to(0).inv(m),
        s.sub_from(k).sub_to(0).read(m) == Seq::<u8>::empty(),
{
    assert(s.sub_from(k).sub_to(0).read(m) =~= Seq::<u8>::empty());
}

/// Claiming a record and releasing that claim again leaves the pool exactly
/// as it was: a clone that is dropped affects neither the original view nor
/// the storage's lifetime.
pub proof fn lemma_claim_release_identity(m: PoolModel, id: int)
    requires
        m.inv(),
        m.is_live(id),
    ensures
        m.claim(id).release(id) == m,
{
    assert(m.claim(id).release(id).slots =~= m.slots);
    assert(m.claim(id).release(id) =~~= m);
}

/// A release frees the block exactly when it drops the last claim: the free
/// count grows by one on the last release and only then, other claims just
/// count down, and no other slot is touched.
pub proof fn lemma_release_frees_exactly_once(m: PoolModel, id: int)
    requires
        m.inv(),
        m.is_live(id),
    ensures
        ({
            let m2 = m.release(id);
            &&& m2.inv()
            &&& (m.rc(id) == 1 ==> !m2.is_live(id) && m2.frees == m.frees + 1)
            &&& (m.rc(id) > 1 ==> m2.is_live(id) && m2.rc(id) == m.rc(id) - 1 && m2.frees
                == m.frees && m2.committed(id) == m.committed(id) && m2.data(id) == m.data(id))
            &&& forall|j: int| m.in_bounds(j) && j != id ==> m.release(id).slots[j] == m.slots[j]
        }),
{
}

} // verus!

