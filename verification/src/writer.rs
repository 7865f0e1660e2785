//! The writer handle of an append-only buffer.
//!
//! An `AppendBuf` is created together with a fresh allocation record and is
//! the only handle that extends the record's committed prefix. Appends only
//! ever grow the prefix — committed bytes never change — so views derived
//! earlier keep reading exactly what they saw at creation.

use crate::pool::{AllocError, Pool, PoolModel, HEADER_SIZE};
use crate::slice::{Slice, SliceModel};
use vstd::prelude::*;

verus! {

/// Mathematical model of a writer handle: the slot id of its record.
pub ghost struct WriterModel {
    /// Slot id of the record this writer extends.
    pub id: int,
}

/// An append-only buffer: the sole writer of one allocation record.
pub struct AppendBuf {
    id: usize,
}

impl View for AppendBuf {
    type V = WriterModel;

    closed spec fn view(&self) -> WriterModel {
        WriterModel { id: self.id as int }
    }
}

impl AppendBuf {
    /// The handle's record is live in the pool.
    pub open spec fn inv(self, m: PoolModel) -> bool {
        m.is_live(self@.id)
    }

    /// Create a new, empty buffer backed by a fresh block of `pool`, holding
    /// the record's initial claim. Fails exactly when the pool has no free
    /// block or its block size leaves no capacity behind the header.
    pub fn new(pool: &mut Pool) -> (r: Result<AppendBuf, AllocError>)
        requires
            old(pool).wf(),
        ensures
            final(pool).wf(),
            r is Ok <==> old(pool)@.block_size > HEADER_SIZE && old(pool)@.has_free_slot(),
            match r {
                Ok(b) => {
                    &&& old(pool)@.in_bounds(b@.id)
                    &&& !old(pool)@.is_live(b@.id)
                    &&& final(pool)@ == old(pool)@.alloc_at(b@.id)
                    &&& b.inv(final(pool)@)
                    &&& final(pool)@.committed(b@.id) == 0
                    &&& final(pool)@.rc(b@.id) == 1
                },
                Err(e) => {
                    &&& final(pool)@ == old(pool)@
                    &&& (e == AllocError::InvalidConfig <==> old(pool)@.block_size <= HEADER_SIZE)
                    &&& (e == AllocError::Exhausted ==> !old(pool)@.has_free_slot())
                },
            },
    {
        match pool.allocate() {
            Ok(id) => Ok(AppendBuf { id }),
            Err(e) => Err(e),
        }
    }

    /// The amount of space still free for appends.
    pub fn remaining(&self, pool: &Pool) -> (r: usize)
        requires
            pool.wf(),
            self.inv(pool@),
        ensures
            r as int == pool@.remaining(self@.id),
            r as int == pool@.capacity() - pool@.committed(self@.id),
    {
        pool.remaining_at(self.id)
    }

    /// The commit position: how many leading bytes are valid and readable.
    pub fn position(&self, pool: &Pool) -> (r: usize)
        requires
            pool.wf(),
            self.inv(pool@),
        ensures
            r as int == pool@.committed(self@.id),
    {
        pool.committed_at(self.id)
    }

    /// Append the bytes of `bytes`, truncating to the remaining space, and
    /// return how many were written. A write past the remaining space is
    /// partial success, not an error: callers must check the count.
    pub fn fill(&mut self, pool: &mut Pool, bytes: &[u8]) -> (n: usize)
        requires
            old(pool).wf(),
            old(self).inv(old(pool)@),
        ensures
            final(pool).wf(),
            *final(self) == *old(self),
            final(self).inv(final(pool)@),
            n as int == old(pool)@.fill_len(old(self)@.id, bytes@),
            final(pool)@ == old(pool)@.fill(old(self)@.id, bytes@),
    {
        pool.fill_at(self.id, bytes)
    }

    /// Write one byte into the reserved (uncommitted) region, `i` bytes past
    /// the commit position. The byte becomes readable only once a later
    /// `advance` commits it; no view can see it before that.
    pub fn write_reserved(&mut self, pool: &mut Pool, i: usize, b: u8)
        requires
            old(pool).wf(),
            old(self).inv(old(pool)@),
            (i as int) < old(pool)@.remaining(old(self)@.id),
        ensures
            final(pool).wf(),
            *final(self) == *old(self),
            final(self).inv(final(pool)@),
            final(pool)@ == old(pool)@.write_reserved(old(self)@.id, i as int, b),
    {
        pool.write_at(self.id, i, b)
    }

    /// Advance the commit position over `amount` bytes that were already
    /// written into the reserved region via `write_reserved`.
    pub fn advance(&mut self, pool: &mut Pool, amount: usize)
        requires
            old(pool).wf(),
            old(self).inv(old(pool)@),
            amount as int <= old(pool)@.remaining(old(self)@.id),
        ensures
            final(pool).wf(),
            *final(self) == *old(self),
            final(self).inv(final(pool)@),
            final(pool)@ == old(pool)@.advance(old(self)@.id, amount as int),
    {
        pool.advance_at(self.id, amount)
    }

    /// Take a view of everything committed so far. The view claims the
    /// record once more and its window stays `[0, position)` forever, however
    /// much is appended afterwards.
    pub fn slice(&self, pool: &mut Pool) -> (r: Slice)
        requires
            old(pool).wf(),
            self.inv(old(pool)@),
            old(pool)@.rc(self@.id) < usize::MAX,
        ensures
            final(pool).wf(),
            final(pool)@ == old(pool)@.claim(self@.id),
            r@ == (SliceModel { id: self@.id, offset: 0, len: old(pool)@.committed(self@.id) }),
            r@.inv(final(pool)@),
    {
        let len = pool.committed_at(self.id);
        pool.claim(self.id);
        Slice::from_raw(self.id, 0, len)
    }

    /// Copy the committed prefix.
    pub fn to_vec(&self, pool: &Pool) -> (r: Vec<u8>)
        requires
            pool.wf(),
            self.inv(pool@),
        ensures
            r@ == pool@.data(self@.id).subrange(0, pool@.committed(self@.id)),
    {
        let c = pool.committed_at(self.id);
        pool.read_range(self.id, 0, c)
    }

    /// Drop the writer's claim on its record. Existing views are unaffected;
    /// the last claim to go returns the record's block to the pool.
    pub fn release(self, pool: &mut Pool)
        requires
            old(pool).wf(),
            self.inv(old(pool)@),
            old(pool)@.frees < usize::MAX,
        ensures
            final(pool).wf(),
            final(pool)@ == old(pool)@.release(self@.id),
            old(pool)@.rc(self@.id) == 1 ==> !final(pool)@.is_live(self@.id) && final(pool)@.frees
                == old(pool)@.frees + 1,
            old(pool)@.rc(self@.id) != 1 ==> final(pool)@.is_live(self@.id) && final(pool)@.rc(
                self@.id,
            ) == old(pool)@.rc(self@.id) - 1 && final(pool)@.frees == old(pool)@.frees,
    {
        let _ = pool.release_claim(self.id);
    }
}

} // verus!
