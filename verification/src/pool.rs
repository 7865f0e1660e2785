//! The block pool and its shared allocation records.
//!
//! A `Pool` owns a fixed number of fixed-size blocks. Each block can back one
//! allocation record at a time: a byte store with a committed prefix and a
//! count of outstanding claims. Handles (`AppendBuf`, `Slice`) name their
//! record by slot id; the record returns to the pool exactly when its claim
//! count drops from one to zero.

use vstd::prelude::*;

verus! {

/// Bytes at the head of every pool block that hold the record's own
/// bookkeeping (claim count and pool back-reference); the usable capacity of
/// a block is the pool's block size minus this overhead.
pub const HEADER_SIZE: usize = 16;

/// Why a buffer could not be created.
#[derive(Clone, Copy, Debug, PartialEq, Eq, Structural)]
pub enum AllocError {
    /// Every block of the pool currently backs a live record.
    Exhausted,
    /// The pool's block size leaves no usable capacity behind the header.
    InvalidConfig,
}

/// Mathematical model of one block slot of the pool.
#[verifier::ext_equal]
pub ghost struct SlotModel {
    /// Whether the slot currently backs a live allocation record.
    pub alive: bool,
    /// Number of outstanding claims on the record.
    pub refcount: int,
    /// Length of the committed (written, readable) prefix.
    pub committed: int,
    /// The bytes of the block's usable storage.
    pub data: Seq<u8>,
}

/// Mathematical model of a pool together with its allocation records.
#[verifier::ext_equal]
pub ghost struct PoolModel {
    /// The pool-wide block size.
    pub block_size: int,
    /// How many blocks have been returned to the pool so far.
    pub frees: int,
    /// One entry per block of the pool.
    pub slots: Seq<SlotModel>,
}

impl PoolModel {
    /// Number of blocks the pool was created with.
    pub open spec fn num_blocks(self) -> int {
        self.slots.len() as int
    }

    /// Usable bytes of one block: the block size minus the record header.
    pub open spec fn capacity(self) -> int {
        self.block_size - HEADER_SIZE
    }

    pub open spec fn in_bounds(self, id: int) -> bool {
        0 <= id < self.num_blocks()
    }

    /// Whether slot `id` currently backs a live allocation record.
    pub open spec fn is_live(self, id: int) -> bool {
        self.in_bounds(id) && self.slots[id].alive
    }

    /// Outstanding claims on the record in slot `id`.
    pub open spec fn rc(self, id: int) -> int {
        self.slots[id].refcount
    }

    /// Length of the committed prefix of slot `id`.
    pub open spec fn committed(self, id: int) -> int {
        self.slots[id].committed
    }

    /// The bytes stored in slot `id`.
    pub open spec fn data(self, id: int) -> Seq<u8> {
        self.slots[id].data
    }

    /// Space still available for appends in slot `id`.
    pub open spec fn remaining(self, id: int) -> int {
        self.data(id).len() - self.committed(id)
    }

    pub open spec fn has_free_slot(self) -> bool {
        exists|i: int| 0 <= i < self.num_blocks() && !(#[trigger] self.slots[i]).alive
    }

    /// Every live record is well-formed: full-capacity storage, a committed
    /// prefix within bounds, and at least one outstanding claim.
    pub open spec fn inv(self) -> bool {
        forall|i: int|
            0 <= i < self.num_blocks() && (#[trigger] self.slots[i]).alive ==> {
                &&& self.slots[i].data.len() == self.capacity()
                &&& 0 <= self.slots[i].committed <= self.slots[i].data.len()
                &&& self.slots[i].refcount >= 1
            }
    }

    /// The pool as created: no live records, nothing freed yet.
    pub open spec fn fresh(block_size: int, num_blocks: int) -> PoolModel {
        PoolModel {
            block_size: block_size,
            frees: 0,
            slots: Seq::new(
                num_blocks as nat,
                |i: int| SlotModel { alive: false, refcount: 0, committed: 0, data: Seq::empty() },
            ),
        }
    }

    /// One more claim taken on the record in slot `id`.
    pub open spec fn claim(self, id: int) -> PoolModel {
        let s = self.slots[id];
        PoolModel {
            block_size: self.block_size,
            frees: self.frees,
            slots: self.slots.update(
                id,
                SlotModel {
                    alive: s.alive,
                    refcount: s.refcount + 1,
                    committed: s.committed,
                    data: s.data,
                },
            ),
        }
    }

    /// One claim dropped from the record in slot `id`; dropping the last
    /// claim returns the block to the pool.
    pub open spec fn release(self, id: int) -> PoolModel {
        let s = self.slots[id];
        if s.refcount == 1 {
            PoolModel {
                block_size: self.block_size,
                frees: self.frees + 1,
                slots: self.slots.update(
                    id,
                    SlotModel { alive: false, refcount: 0, committed: 0, data: Seq::empty() },
                ),
            }
        } else {
            PoolModel {
                block_size: self.block_size,
                frees: self.frees,
                slots: self.slots.update(
                    id,
                    SlotModel {
                        alive: s.alive,
                        refcount: s.refcount - 1,
                        committed: s.committed,
                        data: s.data,
                    },
                ),
            }
        }
    }

    /// A fresh record in slot `id`: one claim, nothing committed, zeroed
    /// storage of full capacity.
    pub open spec fn alloc_at(self, id: int) -> PoolModel {
        PoolModel {
            block_size: self.block_size,
            frees: self.frees,
            slots: self.slots.update(
                id,
                SlotModel {
                    alive: true,
                    refcount: 1,
                    committed: 0,
                    data: Seq::new(self.capacity() as nat, |i: int| 0u8),
                },
            ),
        }
    }

    /// How many bytes an append of `bytes` to slot `id` commits: the write is
    /// truncated to the remaining space, never an error.
    pub open spec fn fill_len(self, id: int, bytes: Seq<u8>) -> int {
        if bytes.len() <= self.remaining(id) {
            bytes.len() as int
        } else {
            self.remaining(id)
        }
    }

    /// The pool after appending `bytes` to slot `id`: the committed prefix
    /// grows by the truncated amount, the new bytes land right behind the old
    /// prefix, and everything else is untouched.
    pub open spec fn fill(self, id: int, bytes: Seq<u8>) -> PoolModel {
        let s = self.slots[id];
        let n = self.fill_len(id, bytes);
        PoolModel {
            block_size: self.block_size,
            frees: self.frees,
            slots: self.slots.update(
                id,
                SlotModel {
                    alive: s.alive,
                    refcount: s.refcount,
                    committed: s.committed + n,
                    data: s.data.subrange(0, s.committed) + bytes.subrange(0, n) + s.data.subrange(
                        s.committed + n,
                        s.data.len() as int,
                    ),
                },
            ),
        }
    }

    /// The pool after committing `amount` bytes that the caller already wrote
    /// into the reserved region of slot `id`.
    pub open spec fn advance(self, id: int, amount: int) -> PoolModel {
        let s = self.slots[id];
        PoolModel {
            block_size: self.block_size,
            frees: self.frees,
            slots: self.slots.update(
                id,
                SlotModel {
                    alive: s.alive,
                    refcount: s.refcount,
                    committed: s.committed + amount,
                    data: s.data,
                },
            ),
        }
    }

    /// The pool after writing one byte into the reserved region of slot `id`,
    /// `i` bytes past the committed prefix.
    pub open spec fn write_reserved(self, id: int, i: int, b: u8) -> PoolModel {
        let s = self.slots[id];
        PoolModel {
            block_size: self.block_size,
            frees: self.frees,
            slots: self.slots.update(
                id,
                SlotModel {
                    alive: s.alive,
                    refcount: s.refcount,
                    committed: s.committed,
                    data: s.data.update(s.committed + i, b),
                },
            ),
        }
    }
}

/// The block pool: a fixed set of slots, each of which can back one
/// allocation record at a time.
pub struct Pool {
    block_size: usize,
    frees: usize,
    alive: Vec<bool>,
    refcount: Vec<usize>,
    committed: Vec<usize>,
    data: Vec<Vec<u8>>,
}

impl View for Pool {
    type V = PoolModel;

    closed spec fn view(&self) -> PoolModel {
        PoolModel {
            block_size: self.block_size as int,
            frees: self.frees as int,
            slots: Seq::new(
                self.alive@.len(),
                |i: int| SlotModel {
                    alive: self.alive@[i],
                    refcount: self.refcount@[i] as int,
                    committed: self.committed@[i] as int,
                    data: self.data@[i]@,
                },
            ),
        }
    }
}

impl Pool {
    /// The representation vectors cover the same slots, and the model
    /// invariant holds.
    pub closed spec fn wf(self) -> bool {
        &&& self.refcount@.len() == self.alive@.len()
        &&& self.committed@.len() == self.alive@.len()
        &&& self.data@.len() == self.alive@.len()
        &&& self@.inv()
    }

    /// A well-formed pool satisfies the model invariant, and its block size
    /// fits the machine word it was created from.
    pub proof fn lemma_wf_inv(&self)
        requires
            self.wf(),
        ensures
            self@.inv(),
            self@.block_size <= usize::MAX,
    {
    }

    /// Length of the committed prefix of slot `id`.
    pub(crate) fn committed_at(&self, id: usize) -> (r: usize)
        requires
            self.wf(),
            self@.is_live(id as int),
        ensures
            r as int == self@.committed(id as int),
    {
        self.committed[id]
    }

    /// Space still available for appends in slot `id`.
    pub(crate) fn remaining_at(&self, id: usize) -> (r: usize)
        requires
            self.wf(),
            self@.is_live(id as int),
        ensures
            r as int == self@.remaining(id as int),
            r as int == self@.capacity() - self@.committed(id as int),
    {
        self.data[id].len() - self.committed[id]
    }

    /// Create a pool of `num_blocks` blocks of `block_size` bytes each.
    pub fn new(block_size: usize, num_blocks: usize) -> (r: Pool)
        ensures
            r.wf(),
            r@ == PoolModel::fresh(block_size as int, num_blocks as int),
    {
        let mut alive: Vec<bool> = Vec::new();
        let mut refcount: Vec<usize> = Vec::new();
        let mut committed: Vec<usize> = Vec::new();
        let mut data: Vec<Vec<u8>> = Vec::new();
        let mut i: usize = 0;
        while i < num_blocks
            invariant
                i <= num_blocks,
                alive@.len() == i,
                refcount@.len() == i,
                committed@.len() == i,
                data@.len() == i,
                forall|j: int|
                    #![auto]
                    0 <= j < i ==> !alive@[j] && refcount@[j] == 0 && committed@[j] == 0
                        && data@[j]@ == Seq::<u8>::empty(),
            decreases num_blocks - i,
        {
            alive.push(false);
            refcount.push(0);
            committed.push(0);
            data.push(Vec::new());
            i += 1;
        }
        let r = Pool { block_size, frees: 0, alive, refcount, committed, data };
        proof {
            assert(r@.slots =~= PoolModel::fresh(block_size as int, num_blocks as int).slots);
            assert(r@ =~~= PoolModel::fresh(block_size as int, num_blocks as int));
        }
        r
    }

    /// How many blocks have been returned to the pool so far.
    pub fn free_count(&self) -> (r: usize)
        ensures
            r as int == self@.frees,
    {
        self.frees
    }

    /// The pool-wide block size.
    pub fn block_size(&self) -> (r: usize)
        ensures
            r as int == self@.block_size,
    {
        self.block_size
    }

    /// How many blocks the pool was created with.
    pub fn num_blocks(&self) -> (r: usize)
        ensures
            r as int == self@.num_blocks(),
    {
        self.alive.len()
    }

    /// Take one more claim on the record in slot `id`.
    pub(crate) fn claim(&mut self, id: usize)
        requires
            old(self).wf(),
            old(self)@.is_live(id as int),
            old(self)@.rc(id as int) < usize::MAX,
        ensures
            final(self).wf(),
            final(self)@ == old(self)@.claim(id as int),
    {
        let rc = self.refcount[id];
        self.refcount[id] = rc + 1;
        proof {
            assert(self@.slots =~= old(self)@.claim(id as int).slots);
            assert(self@ =~~= old(self)@.claim(id as int));
        }
    }

    /// Drop one claim on the record in slot `id`. Dropping the last claim
    /// returns the block to the pool; the result says whether that happened.
    pub(crate) fn release_claim(&mut self, id: usize) -> (freed: bool)
        requires
            old(self).wf(),
            old(self)@.is_live(id as int),
            old(self)@.frees < usize::MAX,
        ensures
            final(self).wf(),
            final(self)@ == old(self)@.release(id as int),
            freed <==> old(self)@.rc(id as int) == 1,
    {
        let rc = self.refcount[id];
        if rc == 1 {
            self.alive[id] = false;
            self.refcount[id] = 0;
            self.committed[id] = 0;
            self.data[id] = Vec::new();
            self.frees = self.frees + 1;
            proof {
                assert(self@.slots =~= old(self)@.release(id as int).slots);
                assert(self@ =~~= old(self)@.release(id as int));
            }
            true
        } else {
            self.refcount[id] = rc - 1;
            proof {
                assert(self@.slots =~= old(self)@.release(id as int).slots);
                assert(self@ =~~= old(self)@.release(id as int));
            }
            false
        }
    }

    /// Allocate a fresh record: find a free block, zero its usable bytes, and
    /// hand its slot id out together with the record's single claim.
    pub(crate) fn allocate(&mut self) -> (r: Result<usize, AllocError>)
        requires
            old(self).wf(),
        ensures
            final(self).wf(),
            r is Ok <==> old(self)@.block_size > HEADER_SIZE && old(self)@.has_free_slot(),
            match r {
                Ok(id) => {
                    &&& old(self)@.in_bounds(id as int)
                    &&& !old(self)@.is_live(id as int)
                    &&& final(self)@ == old(self)@.alloc_at(id as int)
                },
                Err(e) => {
                    &&& final(self)@ == old(self)@
                    &&& (e == AllocError::InvalidConfig <==> old(self)@.block_size <= HEADER_SIZE)
                    &&& (e == AllocError::Exhausted ==> !old(self)@.has_free_slot())
                },
            },
    {
        if self.block_size <= HEADER_SIZE {
            return Err(AllocError::InvalidConfig);
        }
        let cap = self.block_size - HEADER_SIZE;
        let n = self.alive.len();
        let mut i: usize = 0;
        while i < n
            invariant
                i <= n,
                old(self).wf(),
                *self == *old(self),
                n == self.alive@.len(),
                old(self)@.block_size > HEADER_SIZE,
                cap as int == old(self)@.capacity(),
                forall|j: int| 0 <= j < i ==> (#[trigger] self.alive@[j]),
            decreases n - i,
        {
            if !self.alive[i] {
                let mut d: Vec<u8> = Vec::new();
                while d.len() < cap
                    invariant
                        d@.len() <= cap,
                        forall|k: int| 0 <= k < d@.len() ==> (#[trigger] d@[k]) == 0u8,
                    decreases cap - d@.len(),
                {
                    d.push(0);
                }
                self.alive[i] = true;
                self.refcount[i] = 1;
                self.committed[i] = 0;
                self.data[i] = d;
                proof {
                    assert(!(old(self)@.slots[i as int]).alive);
                    assert(old(self)@.has_free_slot());
                    assert(d@.len() == cap as nat);
                    assert(d@ =~= Seq::new(old(self)@.capacity() as nat, |k: int| 0u8));
                    assert(self@.slots =~= old(self)@.alloc_at(i as int).slots);
                    assert(self@ =~~= old(self)@.alloc_at(i as int));
                }
                return Ok(i);
            }
            i += 1;
        }
        Err(AllocError::Exhausted)
    }

    /// Append `bytes` into slot `id`, truncating to the remaining space, and
    /// commit what was written. Returns the number of bytes committed.
    pub(crate) fn fill_at(&mut self, id: usize, bytes: &[u8]) -> (n: usize)
        requires
            old(self).wf(),
            old(self)@.is_live(id as int),
        ensures
            final(self).wf(),
            n as int == old(self)@.fill_len(id as int, bytes@),
            final(self)@ == old(self)@.fill(id as int, bytes@),
    {
        let c = self.committed[id];
        let cap = self.data[id].len();
        let rem = cap - c;
        let n = if bytes.len() <= rem { bytes.len() } else { rem };
        let ghost target = old(self)@.fill(id as int, bytes@);
        let mut j: usize = 0;
        while j < n
            invariant
                j <= n,
                n <= bytes@.len(),
                c + n <= cap,
                old(self).wf(),
                old(self)@.is_live(id as int),
                id < self.alive@.len(),
                c as int == old(self)@.committed(id as int),
                cap as int == old(self)@.data(id as int).len(),
                n as int == old(self)@.fill_len(id as int, bytes@),
                self.block_size == old(self).block_size,
                self.frees == old(self).frees,
                self.alive@ == old(self).alive@,
                self.refcount@ == old(self).refcount@,
                self.committed@ == old(self).committed@,
                self.data@.len() == old(self).data@.len(),
                forall|k: int|
                    0 <= k < self.data@.len() && k != id ==> (#[trigger] self.data@[k]) == old(
                        self,
                    ).data@[k],
                self.data@[id as int]@.len() == cap,
                forall|k: int|
                    0 <= k < cap ==> (#[trigger] self.data@[id as int]@[k]) == if c <= k < c + j {
                        bytes@[k - c]
                    } else {
                        old(self).data@[id as int]@[k]
                    },
            decreases n - j,
        {
            let b = *vstd::slice::slice_index_get(bytes, j);
            self.data[id][c + j] = b;
            j += 1;
        }
        self.committed[id] = c + n;
        proof {
            assert(self@.slots[id as int].data =~= target.slots[id as int].data);
            assert(self@.slots =~= target.slots);
            assert(self@ =~~= target);
        }
        n
    }

    /// Commit `amount` bytes that the caller already wrote into the reserved
    /// region of slot `id`.
    pub(crate) fn advance_at(&mut self, id: usize, amount: usize)
        requires
            old(self).wf(),
            old(self)@.is_live(id as int),
            amount as int <= old(self)@.remaining(id as int),
        ensures
            final(self).wf(),
            final(self)@ == old(self)@.advance(id as int, amount as int),
    {
        let c = self.committed[id];
        self.committed[id] = c + amount;
        proof {
            assert(self@.slots =~= old(self)@.advance(id as int, amount as int).slots);
            assert(self@ =~~= old(self)@.advance(id as int, amount as int));
        }
    }

    /// Write one byte into the reserved region of slot `id`, `i` bytes past
    /// the committed prefix. The committed prefix itself is untouched.
    pub(crate) fn write_at(&mut self, id: usize, i: usize, b: u8)
        requires
            old(self).wf(),
            old(self)@.is_live(id as int),
            (i as int) < old(self)@.remaining(id as int),
        ensures
            final(self).wf(),
            final(self)@ == old(self)@.write_reserved(id as int, i as int, b),
    {
        let c = self.committed[id];
        self.data[id][c + i] = b;
        proof {
            assert(self@.slots[id as int].data =~= old(self)@.write_reserved(
                id as int,
                i as int,
                b,
            ).slots[id as int].data);
            assert(self@.slots =~= old(self)@.write_reserved(id as int, i as int, b).slots);
            assert(self@ =~~= old(self)@.write_reserved(id as int, i as int, b));
        }
    }

    /// Copy `len` committed bytes of slot `id`, starting `off` bytes in.
    pub(crate) fn read_range(&self, id: usize, off: usize, len: usize) -> (r: Vec<u8>)
        requires
            self.wf(),
            self@.is_live(id as int),
            off + len <= self@.committed(id as int),
        ensures
            r@ == self@.data(id as int).subrange(off as int, off as int + len as int),
    {
        let mut r: Vec<u8> = Vec::new();
        let mut j: usize = 0;
        while j < len
            invariant
                j <= len,
                r@.len() == j,
                self.wf(),
                self@.is_live(id as int),
                off + len <= self@.committed(id as int),
                id < self.data@.len(),
                forall|k: int|
                    0 <= k < j ==> (#[trigger] r@[k]) == self@.data(id as int)[off + k],
            decreases len - j,
        {
            let b = self.data[id][off + j];
            r.push(b);
            j += 1;
        }
        proof {
            assert(r@ =~= self@.data(id as int).subrange(off as int, off as int + len as int));
        }
        r
    }
}

} // verus!
