//! Bump allocation of byte ranges inside one large GPU geometry buffer.
//!
//! The allocator hands out non-overlapping slots sized to a mesh's quad
//! count and only ever advances its cursor; there is no free or compact
//! operation, so a slot is permanent once granted. Exhaustion is reported
//! as an error value instead of terminating, so the caller decides.

use vstd::prelude::*;

verus! {

/// Total size of the GPU geometry buffer, in bytes.
pub const BUFFER_SIZE: u32 = 500_000_000;

/// Size of one packed quad in the geometry buffer, in bytes.
pub const QUAD_SIZE_BYTES: u32 = 8;

/// A reserved `[start_bytes, start_bytes + size_bytes)` range of the
/// geometry buffer.
#[derive(PartialEq, Eq, Structural, Clone, Copy, Debug)]
pub struct BufferSlot {
    pub start_bytes: u32,
    pub size_bytes: u32,
}

/// Report of a refused allocation: the request and what was still free,
/// both counted in quads.
#[derive(PartialEq, Eq, Structural, Clone, Copy, Debug)]
pub struct AllocationExhausted {
    pub requested_quads: u32,
    pub available_quads: u32,
}

/// Owner of the geometry buffer's allocation state: a monotonic cursor and
/// the list of slots handed out so far.
pub struct GeometryAllocator {
    pub capacity: u32,
    pub allocation_end: u32,
    pub used_slots: Vec<BufferSlot>,
}

impl GeometryAllocator {
    /// Slots are quad-aligned, laid out in grant order without overlap, and
    /// all of them end at or before the cursor, which stays within capacity.
    pub open spec fn wf(&self) -> bool {
        &&& self.allocation_end <= self.capacity
        &&& self.capacity % QUAD_SIZE_BYTES == 0
        &&& self.allocation_end % QUAD_SIZE_BYTES == 0
        &&& forall|i: int|
            0 <= i < self.used_slots.len() ==> (#[trigger] self.used_slots@[i]).start_bytes
                % QUAD_SIZE_BYTES == 0 && self.used_slots@[i].size_bytes % QUAD_SIZE_BYTES == 0
                && self.used_slots@[i].start_bytes + self.used_slots@[i].size_bytes
                <= self.allocation_end
        &&& forall|i: int, j: int|
            0 <= i < j < self.used_slots.len()
                ==> (#[trigger] self.used_slots@[i]).start_bytes + self.used_slots@[i].size_bytes
                <= (#[trigger] self.used_slots@[j]).start_bytes
    }

    /// Bytes not yet granted.
    pub open spec fn spec_available(&self) -> int {
        self.capacity - self.allocation_end
    }

    pub fn new(capacity: u32) -> (r: GeometryAllocator)
        requires
            capacity % QUAD_SIZE_BYTES == 0,
        ensures
            r.wf(),
            r.capacity == capacity,
            r.allocation_end == 0,
            r.used_slots@ =~= Seq::<BufferSlot>::empty(),
    {
        GeometryAllocator { capacity, allocation_end: 0, used_slots: Vec::new() }
    }

    /// Reserve `quad_count * QUAD_SIZE_BYTES` bytes at the cursor and advance
    /// it; refuse, changing nothing, when the request exceeds what is left.
    pub fn allocate(&mut self, quad_count: u32) -> (r: Result<BufferSlot, AllocationExhausted>)
        requires
            old(self).wf(),
        ensures
            final(self).wf(),
            final(self).capacity == old(self).capacity,
            final(self).allocation_end >= old(self).allocation_end,
            r is Ok <==> quad_count * QUAD_SIZE_BYTES <= old(self).spec_available(),
            (match r {
                Ok(slot) => {
                    &&& slot.start_bytes == old(self).allocation_end
                    &&& slot.size_bytes == quad_count * QUAD_SIZE_BYTES
                    &&& final(self).allocation_end == old(self).allocation_end + slot.size_bytes
                    &&& final(self).used_slots@ == old(self).used_slots@.push(slot)
                },
                Err(e) => {
                    &&& final(self).allocation_end == old(self).allocation_end
                    &&& final(self).used_slots@ == old(self).used_slots@
                    &&& e.requested_quads == quad_count
                    &&& e.available_quads == old(self).spec_available() / QUAD_SIZE_BYTES as int
                },
            }),
    {
        let ghost end0 = self.allocation_end;
        let available = self.capacity - self.allocation_end;
        let available_quads = available / QUAD_SIZE_BYTES;
        if quad_count > available_quads {
            proof {
                // quad_count > available / 8 means quad_count * 8 > available
                assert(quad_count * QUAD_SIZE_BYTES > available) by (nonlinear_arith)
                    requires
                        quad_count > available / QUAD_SIZE_BYTES,
                        available >= 0,
                        QUAD_SIZE_BYTES == 8,
                ;
            }
            return Err(AllocationExhausted { requested_quads: quad_count, available_quads });
        }
        proof {
            assert(quad_count * QUAD_SIZE_BYTES <= available && (quad_count * QUAD_SIZE_BYTES)
                % (QUAD_SIZE_BYTES as int) == 0 && (end0 + quad_count * QUAD_SIZE_BYTES)
                % (QUAD_SIZE_BYTES as int) == 0) by (nonlinear_arith)
                requires
                    quad_count <= available / QUAD_SIZE_BYTES,
                    available >= 0,
                    quad_count >= 0,
                    end0 >= 0,
                    available % QUAD_SIZE_BYTES == 0,
                    end0 % QUAD_SIZE_BYTES == 0,
                    QUAD_SIZE_BYTES == 8,
            ;
        }
        let size_bytes = quad_count * QUAD_SIZE_BYTES;
        let slot = BufferSlot { start_bytes: self.allocation_end, size_bytes };
        self.used_slots.push(slot);
        self.allocation_end = self.allocation_end + size_bytes;
        Ok(slot)
    }
}

/// Any two slots granted by a well-formed allocator occupy disjoint byte
/// ranges: allocation only ever bumps the cursor past every earlier slot.
pub proof fn lemma_slots_pairwise_disjoint(a: GeometryAllocator, i: int, j: int)
    requires
        a.wf(),
        0 <= i < a.used_slots.len(),
        0 <= j < a.used_slots.len(),
        i != j,
    ensures
        a.used_slots@[i].start_bytes + a.used_slots@[i].size_bytes <= a.used_slots@[j].start_bytes
            || a.used_slots@[j].start_bytes + a.used_slots@[j].size_bytes
            <= a.used_slots@[i].start_bytes,
{
}

} // verus!
