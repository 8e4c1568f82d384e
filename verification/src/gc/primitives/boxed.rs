use vstd::pervasive::unreached;
use vstd::prelude::*;
use crate::eval::{MValue, VALUE_MSB_RESERVED};
use crate::gc::gcspace::{max_blocks, Block, GCObject, GCPtr, GCSpace, Heap};
use crate::gc::primitives::vec::{VALUE_BLOCKS, VALUE_SIZE};
use crate::gc::{blocks_for, blocks_needed, GarbageCollector};

verus! {

/// A boxed cell: one value stored in the heap.
///
/// The value lies at `ptr`. Once the cell has been moved, a forwarding
/// marker takes the place of its flag block: the first block of the value
/// where the value reserves its leading bit, else one more block after it.
#[derive(Clone, Copy)]
pub struct GCBox {
    pub ptr: usize,
}

/// Number of blocks that a boxed cell takes up: the blocks of the value, and
/// one more for the forwarding flag unless the value reserves its leading bit.
pub open spec fn box_blocks(msb_reserved: bool) -> nat {
    if msb_reserved {
        blocks_for(VALUE_SIZE as nat)
    } else {
        blocks_for(VALUE_SIZE as nat) + 1
    }
}

impl GCBox {
    /// The cell is an allocation of `h` that holds a value.
    pub open spec fn live_in(self, h: Heap) -> bool {
        &&& h.sizes.contains_key(self.ptr as nat)
        &&& h.blocks[self.ptr as int] is Value
        &&& h.sizes[self.ptr as nat] == VALUE_BLOCKS
    }

    /// The value stored in the cell in `h`.
    pub open spec fn value_in(self, h: Heap) -> MValue {
        h.blocks[self.ptr as int]->Value_0
    }

    /// Where the cell has been moved to, going by the forwarding markers in `blocks`.
    pub open spec fn forward(self, blocks: Seq<Block>) -> Option<GCBox> {
        match blocks[self.ptr as int] {
            Block::Forward(to) => Some(GCBox { ptr: to }),
            _ => None,
        }
    }

    /// Allocates a new boxed cell that holds `value`, which must be live in
    /// `gc`. This never starts a collection cycle.
    pub fn new(gc: &mut GarbageCollector, value: MValue) -> (b: Self)
        requires
            old(gc).wf(),
            value.live_in(old(gc).heap()),
            old(gc).heap().len + box_blocks(VALUE_MSB_RESERVED) <= max_blocks(),
        ensures
            final(gc).wf(),
            final(gc).heap().extends(old(gc).heap()),
            final(gc).heap().claimed(old(gc).heap(), box_blocks(VALUE_MSB_RESERVED)),
            b.ptr == old(gc).heap().len,
            b.live_in(final(gc).heap()),
            b.value_in(final(gc).heap()) == value,
    {
        let b = Self::alloc_uninit_in_space(&mut gc.from_space);
        gc.from_space.write(b.ptr_in_space(&gc.from_space), Block::Value(value));
        gc.level(Ghost(old(gc).spec_capacity()), Ghost(gc.heap().len));
        proof {
            let h = gc.heap();
            h.lemma_claimed_extends(old(gc).heap(), box_blocks(VALUE_MSB_RESERVED));
            h.lemma_extends_live(old(gc).heap(), value);
            h.lemma_extends_well_formed(old(gc).heap());
            h.lemma_extends_full(old(gc).heap(), 0);
        }
        b
    }

    /// Reads the value stored in the cell, which must be live in `gc`.
    pub fn get(self, gc: &GarbageCollector) -> (v: MValue)
        requires
            gc.wf(),
            self.live_in(gc.heap()),
        ensures
            v == self.value_in(gc.heap()),
    {
        match gc.from_space.block_ptr(self.ptr_in_space(&gc.from_space)) {
            Block::Value(v) => *v,
            _ => unreached(),
        }
    }

    /// Allocates a boxed cell in a given store. Its value is still to be written.
    pub fn alloc_uninit_in_space(space: &mut GCSpace) -> (b: Self)
        requires
            old(space)@.inv(),
            old(space)@.len + box_blocks(VALUE_MSB_RESERVED) <= max_blocks(),
        ensures
            final(space)@.inv(),
            b.ptr == old(space)@.len,
            final(space)@.claimed(old(space)@, box_blocks(VALUE_MSB_RESERVED)),
            final(space)@.blocks[b.ptr as int] is Free,
    {
        let ptr = space.len();
        let mut size_blocks = blocks_needed(VALUE_SIZE);
        if !VALUE_MSB_RESERVED {
            // one more block keeps track of whether the cell has been moved
            size_blocks = size_blocks + 1;
        }
        space.set_len(ptr + size_blocks);
        GCBox { ptr }
    }

    /// Block offset of the stored value.
    pub fn ptr_in_space(self, space: &GCSpace) -> (p: usize)
        ensures
            p == self.ptr,
    {
        self.ptr
    }

    /// Block offset of the forwarding flag of the cell.
    pub fn flag_in_space(self, space: &GCSpace) -> (p: usize)
        requires
            self.ptr + box_blocks(VALUE_MSB_RESERVED) <= usize::MAX,
        ensures
            p == self.ptr,
    {
        if VALUE_MSB_RESERVED {
            self.ptr
        } else {
            self.ptr + blocks_needed(VALUE_SIZE)
        }
    }
}

impl GCObject for GCBox {
    fn get_forwarded_value(self, gc: &GarbageCollector) -> (r: Option<Self>) {
        let fwd = self.flag_in_space(&gc.from_space);
        match gc.from_space.block_ptr(fwd) {
            Block::Forward(fwd) => Some(GCBox { ptr: *fwd }),
            _ => None,
        }
    }
}

impl GCPtr for GCBox {
    const MSB_RESERVED: bool = true;

    open spec fn valid_in(self, h: Heap) -> bool {
        self.live_in(h)
    }

    open spec fn pointee(self) -> Option<nat> {
        Some(self.ptr as nat)
    }

    open spec fn forwarded(self, blocks: Seq<Block>) -> Option<Self> {
        self.forward(blocks)
    }

    fn gc_copy(self, gc: &mut GarbageCollector) -> (r: Self)
        ensures
            self.forward(old(gc).from_space@.blocks) is None ==> r.ptr == old(gc).to_space@.len,
        decreases old(gc).pending_blocks(), 0nat,
    {
        if let Some(fwd) = self.get_forwarded_value(gc) {
            proof {
                gc.lemma_advanced_refl();
            }
            return fwd;
        }
        let ghost p = self.ptr as nat;
        let ghost o = gc.origin_heap();
        proof {
            gc.lemma_intact(p);
            assert(gc.from_space@.blocks[p + 0int] == o.blocks[p + 0int]);
            assert(o.obj_ok(p));
        }
        if let Block::Value(old_value) = gc.from_space.block_ptr(self.ptr_in_space(&gc.from_space)) {
            let old_value = *old_value;
            let new_box = Self::alloc_uninit_in_space(&mut gc.to_space);
            let fwd_storage_ptr = self.flag_in_space(&gc.from_space);
            gc.from_space.write(fwd_storage_ptr, Block::Forward(new_box.ptr));
            gc.moved = Ghost(gc.moved@.insert(new_box.ptr as nat, p));
            let ghost q = new_box.ptr as nat;
            proof {
                gc.lemma_mark(*old(gc), p, new_box.ptr);
                gc.to_space@.lemma_claimed_extends(old(gc).to_space@, box_blocks(VALUE_MSB_RESERVED));
                assert forall|k: nat| #[trigger] gc.to_space@.sizes.contains_key(k) && k >= q + 1 implies gc.to_space@.obj_full(
                    k,
                ) by {
                    assert(!old(gc).to_space@.sizes.contains_key(k));
                }
            }
            let ghost before = *gc;
            let new_value = old_value.gc_copy(gc);
            let ghost mid = *gc;
            proof {
                gc.lemma_after_part(before, *old(gc), q);
                assert(gc.to_space@.blocks[q as int] == before.to_space@.blocks[q as int]);
            }
            gc.to_space.write(new_box.ptr_in_space(&gc.to_space), Block::Value(new_value));
            proof {
                gc.lemma_fill_box(mid, p, new_box.ptr, new_value);
                assert(gc.to_space@.obj_full(q));
            }
            new_box
        } else {
            unreached()
        }
    }
}

} // verus!
