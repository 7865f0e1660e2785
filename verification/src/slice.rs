//! Read-only views into a buffer's committed bytes.
//!
//! A `Slice` names a fixed sub-range of one record's committed prefix. It
//! holds one claim on the record, so the bytes it exposes stay valid however
//! long the writer or any other view lives. Its range never changes after
//! creation, even when the writer commits more bytes later.

use crate::pool::{Pool, PoolModel};
use vstd::prelude::*;

verus! {

/// Mathematical model of a read view: the slot id of its record and the
/// window it exposes.
pub ghost struct SliceModel {
    /// Slot id of the record the view reads.
    pub id: int,
    /// First byte of the window, relative to the record's storage.
    pub offset: int,
    /// Number of bytes the window exposes.
    pub len: int,
}

impl SliceModel {
    /// The view is valid for pool model `m`: its record is live and its
    /// window lies inside the record's committed prefix.
    pub open spec fn inv(self, m: PoolModel) -> bool {
        &&& m.is_live(self.id)
        &&& 0 <= self.offset
        &&& 0 <= self.len
        &&& self.offset + self.len <= m.committed(self.id)
    }

    /// The bytes this view exposes under pool model `m`.
    pub open spec fn read(self, m: PoolModel) -> Seq<u8> {
        m.data(self.id).subrange(self.offset, self.offset + self.len)
    }

    /// The window shifted forward by `k` bytes: what `slice_from` returns.
    pub open spec fn sub_from(self, k: int) -> SliceModel {
        SliceModel { id: self.id, offset: self.offset + k, len: self.len - k }
    }

    /// The window cut to its first `l` bytes: what `slice_to` returns.
    pub open spec fn sub_to(self, l: int) -> SliceModel {
        SliceModel { id: self.id, offset: self.offset, len: l }
    }
}

/// A read-only view into an `AppendBuf`'s committed bytes.
pub struct Slice {
    id: usize,
    offset: usize,
    len: usize,
}

impl View for Slice {
    type V = SliceModel;

    closed spec fn view(&self) -> SliceModel {
        SliceModel { id: self.id as int, offset: self.offset as int, len: self.len as int }
    }
}

impl Slice {
    /// Build a view from its parts. The caller accounts for the claim that
    /// the view will carry.
    pub(crate) fn from_raw(id: usize, offset: usize, len: usize) -> (r: Slice)
        ensures
            r@ == (SliceModel { id: id as int, offset: offset as int, len: len as int }),
    {
        Slice { id, offset, len }
    }

    /// Number of bytes this view exposes.
    pub fn len(&self) -> (r: usize)
        ensures
            r as int == self@.len,
    {
        self.len
    }

    /// Take a sub-view that starts `offset` bytes into this view and runs to
    /// its end. The new view claims the record once more.
    pub fn slice_from(&self, pool: &mut Pool, offset: usize) -> (r: Slice)
        requires
            old(pool).wf(),
            self@.inv(old(pool)@),
            offset as int <= self@.len,
            old(pool)@.rc(self@.id) < usize::MAX,
        ensures
            final(pool).wf(),
            final(pool)@ == old(pool)@.claim(self@.id),
            r@ == self@.sub_from(offset as int),
            r@.inv(final(pool)@),
    {
        proof {
            pool.lemma_wf_inv();
        }
        pool.claim(self.id);
        Slice { id: self.id, offset: self.offset + offset, len: self.len - offset }
    }

    /// Take a sub-view of the first `len` bytes of this view. The new view
    /// claims the record once more.
    pub fn slice_to(&self, pool: &mut Pool, len: usize) -> (r: Slice)
        requires
            old(pool).wf(),
            self@.inv(old(pool)@),
            len as int <= self@.len,
            old(pool)@.rc(self@.id) < usize::MAX,
        ensures
            final(pool).wf(),
            final(pool)@ == old(pool)@.claim(self@.id),
            r@ == self@.sub_to(len as int),
            r@.inv(final(pool)@),
    {
        pool.claim(self.id);
        Slice { id: self.id, offset: self.offset, len }
    }

    /// Take a sub-view of the bytes from `start` (inclusive) to `end`
    /// (exclusive) of this view. The new view claims the record once more.
    pub fn slice(&self, pool: &mut Pool, start: usize, end: usize) -> (r: Slice)
        requires
            old(pool).wf(),
            self@.inv(old(pool)@),
            start <= end,
            end as int <= self@.len,
            old(pool)@.rc(self@.id) < usize::MAX,
        ensures
            final(pool).wf(),
            final(pool)@ == old(pool)@.claim(self@.id),
            r@ == self@.sub_from(start as int).sub_to(end as int - start as int),
            r@.inv(final(pool)@),
    {
        proof {
            pool.lemma_wf_inv();
        }
        pool.claim(self.id);
        Slice { id: self.id, offset: self.offset + start, len: end - start }
    }

    /// Like `slice`, but an out-of-range request is reported as `None`
    /// instead of being ruled out up front: the result is `Some` exactly when
    /// `start <= end <= len`.
    pub fn try_slice(&self, pool: &mut Pool, start: usize, end: usize) -> (r: Option<Slice>)
        requires
            old(pool).wf(),
            self@.inv(old(pool)@),
            old(pool)@.rc(self@.id) < usize::MAX,
        ensures
            final(pool).wf(),
            r is Some <==> start <= end && end as int <= self@.len,
            r is Some ==> {
                &&& final(pool)@ == old(pool)@.claim(self@.id)
                &&& r->Some_0@ == self@.sub_from(start as int).sub_to(end as int - start as int)
                &&& r->Some_0@.inv(final(pool)@)
            },
            r is None ==> *final(pool) == *old(pool),
    {
        if start <= end && end <= self.len {
            Some(self.slice(pool, start, end))
        } else {
            None
        }
    }

    /// Duplicate this view: same record, same window, one more claim.
    pub fn clone_view(&self, pool: &mut Pool) -> (r: Slice)
        requires
            old(pool).wf(),
            self@.inv(old(pool)@),
            old(pool)@.rc(self@.id) < usize::MAX,
        ensures
            final(pool).wf(),
            final(pool)@ == old(pool)@.claim(self@.id),
            r@ == self@,
            r@.inv(final(pool)@),
    {
        pool.claim(self.id);
        Slice { id: self.id, offset: self.offset, len: self.len }
    }

    /// Copy the bytes this view exposes.
    pub fn to_vec(&self, pool: &Pool) -> (r: Vec<u8>)
        requires
            pool.wf(),
            self@.inv(pool@),
        ensures
            r@ == self@.read(pool@),
    {
        pool.read_range(self.id, self.offset, self.len)
    }

    /// Drop this view's claim on its record. The last claim to go returns
    /// the record's block to the pool.
    pub fn release(self, pool: &mut Pool)
        requires
            old(pool).wf(),
            self@.inv(old(pool)@),
            old(pool)@.frees < usize::MAX,
        ensures
            final(pool).wf(),
            final(pool)@ == old(pool)@.release(self@.id),
            old(pool)@.rc(self@.id) == 1 ==> !final(pool)@.is_live(self@.id) && final(pool)@.frees
                == old(pool)@.frees + 1,
            old(pool)@.rc(self@.id) != 1 ==> final(pool)@.is_live(self@.id) && final(pool)@.rc(
                self@.id,
            ) == old(pool)@.rc(self@.id) - 1 && final(pool)@.frees == old(pool)@.frees,
    {
        let _ = pool.release_claim(self.id);
    }
}

} // verus!
