use vstd::pervasive::unreached;
use vstd::prelude::*;
use crate::eval::MValue;
use crate::gc::gcspace::{max_blocks, Block, GCObject, GCPtr, GCSpace, Heap};
use crate::gc::{blocks_for, GarbageCollector};

verus! {

/// Size in bytes of a value stored in the heap: a tag word and two words of payload.
pub const VALUE_SIZE: usize = 24;

/// Number of blocks that one stored value takes up.
pub const VALUE_BLOCKS: usize = 3;

/// A garbage collected dynamically-sized array of values.
///
/// `ptr` is the offset of a header block that holds the element count; the
/// elements follow from the next block on.
#[derive(Clone, Copy)]
pub struct GCVec {
    pub ptr: usize,
}

/// Offset of the block that holds element `i` of the array whose header is at `ptr`.
pub open spec fn elem_at(ptr: nat, i: int) -> int {
    ptr + 1 + VALUE_BLOCKS * i
}

/// Number of blocks that an array of `len` elements takes up: a header block
/// and the blocks of its elements.
pub open spec fn vec_blocks(len: nat) -> nat {
    1 + blocks_for((len * VALUE_SIZE) as nat)
}

/// A stored value takes a whole number of blocks, so an array takes one
/// block and `VALUE_BLOCKS` more for each element.
pub proof fn lemma_vec_blocks(len: nat)
    ensures
        vec_blocks(len) == 1 + VALUE_BLOCKS * len,
        VALUE_BLOCKS == blocks_for(VALUE_SIZE as nat),
{
}

impl GCVec {
    /// The array is an allocation of `h` with a header.
    pub open spec fn live_in(self, h: Heap) -> bool {
        &&& h.sizes.contains_key(self.ptr as nat)
        &&& h.blocks[self.ptr as int] is Len
        &&& h.sizes[self.ptr as nat] == 1 + VALUE_BLOCKS * h.blocks[self.ptr as int]->Len_0
    }

    /// Where the array has been moved to, going by the forwarding markers in `blocks`.
    pub open spec fn forward(self, blocks: Seq<Block>) -> Option<GCVec> {
        match blocks[self.ptr as int] {
            Block::Forward(to) => Some(GCVec { ptr: to }),
            _ => None,
        }
    }

    /// Number of elements of the array in `h`.
    pub open spec fn len_in(self, h: Heap) -> nat {
        h.blocks[self.ptr as int]->Len_0 as nat
    }

    /// The elements of the array in `h`.
    pub open spec fn elems_in(self, h: Heap) -> Seq<MValue> {
        Seq::new(self.len_in(h), |i: int| h.elem(self.ptr as nat, i)->Value_0)
    }

    /// Block offset of the header of the array.
    pub fn ptr(self) -> (p: usize)
        ensures
            p == self.ptr,
    {
        self.ptr
    }
}

impl GCVec {
    /// Allocates a new array that holds `elements`, which must be live in
    /// `gc`. This never starts a collection cycle.
    pub fn new(gc: &mut GarbageCollector, elements: &[MValue]) -> (vec: Self)
        requires
            old(gc).wf(),
            forall|i: int| 0 <= i < elements@.len() ==> (#[trigger] elements@[i]).live_in(old(gc).heap()),
            old(gc).heap().len + vec_blocks(elements@.len()) <= max_blocks(),
        ensures
            final(gc).wf(),
            final(gc).heap().extends(old(gc).heap()),
            final(gc).heap().claimed(old(gc).heap(), vec_blocks(elements@.len())),
            vec.ptr == old(gc).heap().len,
            vec.live_in(final(gc).heap()),
            vec.elems_in(final(gc).heap()) == elements@,
    {
        let vec = gc.from_space.alloc_vec(elements);
        gc.level(Ghost(old(gc).spec_capacity()), Ghost(gc.heap().len));
        proof {
            let h = gc.heap();
            let p = vec.ptr as nat;
            h.lemma_claimed_extends(old(gc).heap(), vec_blocks(elements@.len()));
            assert forall|i: int| 0 <= i < elements@.len() implies (#[trigger] h.elem(p, i) is Value
                && h.elem(p, i)->Value_0.live_in(h)) by {
                assert(vec.elems_in(h)[i] == elements@[i]);
                h.lemma_extends_live(old(gc).heap(), elements@[i]);
            }
            h.lemma_extends_well_formed(old(gc).heap());
            h.lemma_extends_full(old(gc).heap(), 0);
        }
        vec
    }

    /// The elements of the array, which must be live in `gc`.
    pub fn as_slice(self, gc: &GarbageCollector) -> (r: Vec<MValue>)
        requires
            gc.wf(),
            self.live_in(gc.heap()),
        ensures
            r@ == self.elems_in(gc.heap()),
    {
        let len = match gc.from_space.block_ptr(self.ptr) {
            Block::Len(len) => *len,
            _ => unreached(),
        };
        let mut r: Vec<MValue> = Vec::new();
        let mut i: usize = 0;
        while i < len
            invariant
                i <= len == self.len_in(gc.heap()),
                gc.wf(),
                self.live_in(gc.heap()),
                r@.len() == i,
                forall|j: int| 0 <= j < i ==> r@[j] == gc.heap().elem(self.ptr as nat, j)->Value_0,
            decreases len - i,
        {
            let at = gc.from_space.element_ptr_unchecked(self, i);
            assert(gc.heap().elem(self.ptr as nat, i as int) is Value);
            if let Block::Value(v) = gc.from_space.block_ptr(at) {
                r.push(*v);
            }
            i = i + 1;
        }
        assert(r@ =~= self.elems_in(gc.heap()));
        r
    }
}

impl GCSpace {
    /// Allocates an array of `len` elements whose elements are still to be written.
    pub fn alloc_uninit_vec(&mut self, len: usize) -> (vec: GCVec)
        requires
            old(self)@.inv(),
            old(self)@.len + vec_blocks(len as nat) <= max_blocks(),
        ensures
            final(self)@.inv(),
            vec.ptr == old(self)@.len,
            final(self)@.claimed(old(self)@, vec_blocks(len as nat)),
            final(self)@.blocks[vec.ptr as int] == Block::Len(len),
            forall|i: int| vec.ptr < i < final(self)@.len ==> #[trigger] final(self)@.blocks[i] is Free,
            vec.live_in(final(self)@),
    {
        proof {
            lemma_vec_blocks(len as nat);
        }
        let allocation_size = 1 + len * VALUE_BLOCKS;
        let ptr = self.len();
        self.set_len(ptr + allocation_size);
        // the element count goes to the first block
        self.write(ptr, Block::Len(len));
        GCVec { ptr }
    }

    /// Allocates and initializes an array.
    pub fn alloc_vec(&mut self, elements: &[MValue]) -> (vec: GCVec)
        requires
            old(self)@.inv(),
            old(self)@.len + vec_blocks(elements@.len()) <= max_blocks(),
        ensures
            final(self)@.inv(),
            vec.ptr == old(self)@.len,
            final(self)@.claimed(old(self)@, vec_blocks(elements@.len())),
            vec.live_in(final(self)@),
            vec.elems_in(final(self)@) == elements@,
            final(self)@.obj_full(vec.ptr as nat),
    {
        let vec = self.alloc_uninit_vec(elements.len());
        let ghost claimed = self@;
        proof {
            lemma_vec_blocks(elements@.len());
        }
        let mut i: usize = 0;
        while i < elements.len()
            invariant
                i <= elements@.len(),
                self@.inv(),
                self@.len == claimed.len,
                self@.sizes == claimed.sizes,
                self@.order == claimed.order,
                self@.blocks.len() == claimed.blocks.len(),
                vec.ptr + 1 + VALUE_BLOCKS * elements@.len() == self@.len,
                forall|j: int| 0 <= j <= vec.ptr ==> self@.blocks[j] == claimed.blocks[j],
                forall|j: int|
                    0 <= j < i ==> #[trigger] self@.elem(vec.ptr as nat, j) == Block::Value(elements@[j]),
            decreases elements@.len() - i,
        {
            let ghost before = self@;
            let at = self.element_ptr_unchecked(vec, i);
            self.write(at, Block::Value(elements[i]));
            i = i + 1;
            assert forall|j: int| 0 <= j < i implies #[trigger] self@.elem(vec.ptr as nat, j)
                == Block::Value(elements@[j]) by {
                if j < i - 1 {
                    assert(before.elem(vec.ptr as nat, j) == Block::Value(elements@[j]));
                }
            }
        }
        assert(vec.elems_in(self@) =~= elements@);
        vec
    }

    /// Block offset of the element at `index` of an array. The index is not
    /// held against the length of the array.
    pub fn element_ptr_unchecked(&self, vec: GCVec, index: usize) -> (p: usize)
        requires
            elem_at(vec.ptr as nat, index as int) <= usize::MAX,
        ensures
            p == elem_at(vec.ptr as nat, index as int),
    {
        vec.ptr + 1 + index * VALUE_BLOCKS
    }

    /// Block offset of the element at `index` of an array. Returns `None` if
    /// `index` is out of range.
    pub fn element_ptr(&self, vec: GCVec, index: usize) -> (r: Option<usize>)
        requires
            self@.inv(),
            vec.live_in(self@),
        ensures
            r == if index < vec.len_in(self@) {
                Some(elem_at(vec.ptr as nat, index as int) as usize)
            } else {
                None
            },
    {
        match self.block_ptr(vec.ptr) {
            Block::Len(len) => {
                if index < *len {
                    Some(self.element_ptr_unchecked(vec, index))
                } else {
                    None
                }
            },
            _ => None,
        }
    }
}

impl GCObject for GCVec {
    fn get_forwarded_value(self, gc: &GarbageCollector) -> (r: Option<Self>) {
        match gc.from_space.block_ptr(self.ptr) {
            Block::Forward(forward) => Some(GCVec { ptr: *forward }),
            _ => None,
        }
    }
}

impl GCPtr for GCVec {
    const MSB_RESERVED: bool = true;

    open spec fn valid_in(self, h: Heap) -> bool {
        self.live_in(h)
    }

    open spec fn pointee(self) -> Option<nat> {
        Some(self.ptr as nat)
    }

    open spec fn forwarded(self, blocks: Seq<Block>) -> Option<Self> {
        self.forward(blocks)
    }

    fn gc_copy(self, gc: &mut GarbageCollector) -> (r: Self)
        ensures
            self.forward(old(gc).from_space@.blocks) is None ==> r.ptr == old(gc).to_space@.len,
        decreases old(gc).pending_blocks(), 0nat,
    {
        if let Some(fwd) = self.get_forwarded_value(gc) {
            proof {
                gc.lemma_advanced_refl();
            }
            return fwd;
        }
        let ghost p = self.ptr as nat;
        let ghost o = gc.origin_heap();
        proof {
            gc.lemma_intact(p);
            assert(gc.from_space@.blocks[p + 0int] == o.blocks[p + 0int]);
            assert(o.obj_ok(p));
            lemma_vec_blocks(o.blocks[p as int]->Len_0 as nat);
        }
        let len = match gc.from_space.block_ptr(self.ptr) {
            Block::Len(len) => *len,
            _ => unreached(),
        };
        // The array is allocated and the marker written before the elements
        // are copied, because they may contain references to the array
        let new_vec = gc.to_space.alloc_uninit_vec(len);
        gc.from_space.write(self.ptr, Block::Forward(new_vec.ptr));
        gc.moved = Ghost(gc.moved@.insert(new_vec.ptr as nat, p));
        let ghost q = new_vec.ptr as nat;
        proof {
            assert forall|i: int| 0 <= i < len implies #[trigger] gc.to_space@.elem(q, i) is Free by {
                assert(gc.to_space@.blocks[elem_at(q, i)] is Free);
            }
            gc.lemma_mark(*old(gc), p, new_vec.ptr);
            gc.to_space@.lemma_claimed_extends(old(gc).to_space@, vec_blocks(len as nat));
            assert forall|k: nat| #[trigger] gc.to_space@.sizes.contains_key(k) && k >= q + 1 implies gc.to_space@.obj_full(
                k,
            ) by {
                assert(!old(gc).to_space@.sizes.contains_key(k));
            }
        }
        let mut i: usize = 0;
        while i < len
            invariant
                i <= len,
                gc.collecting(),
                gc.stepped(*old(gc)),
                gc.pending_blocks() < old(gc).pending_blocks(),
                p == self.ptr,
                q == new_vec.ptr,
                q == old(gc).to_space@.len,
                o == gc.origin_heap(),
                gc.from_space@.sizes.contains_key(p),
                gc.from_space@.blocks[p as int] == Block::Forward(new_vec.ptr),
                o.blocks[p as int] == Block::Len(len),
                gc.to_space@.sizes.contains_key(q),
                forall|j: int| i <= j < len ==> #[trigger] gc.to_space@.elem(q, j) is Free,
                forall|j: int| 0 <= j < i ==> #[trigger] gc.to_space@.elem(q, j) is Value,
                gc.to_space@.full_from(q + 1),
            decreases len - i,
        {
            proof {
                assert(o.obj_ok(p) && o.obj_full(p));
                assert(o.elem(p, i as int) is Value);
                gc.lemma_part_intact(p, 1 + VALUE_BLOCKS * i);
                assert(gc.copy_ok(p, q));
                assert(gc.reached@.contains(p));
            }
            let at = gc.from_space.element_ptr_unchecked(self, i);
            if let Block::Value(old_element) = gc.from_space.block_ptr(at) {
                let old_element = *old_element;
                let ghost before = *gc;
                let new_element = old_element.gc_copy(gc);
                let ghost mid = *gc;
                proof {
                    gc.lemma_after_part(before, *old(gc), q);
                    assert(gc.to_space@.elem(q, i as int) == before.to_space@.elem(q, i as int));
                    assert(gc.to_space@.elem(q, i as int) is Free);
                    assert(gc.copy_ok(p, q));
                }
                let to_at = gc.to_space.element_ptr_unchecked(new_vec, i);
                gc.to_space.write(to_at, Block::Value(new_element));
                proof {
                    gc.lemma_fill_elem(mid, p, new_vec.ptr, i as int, new_element);
                    assert forall|j: int| i + 1 <= j < len implies #[trigger] gc.to_space@.elem(q, j) is Free by {
                        assert(mid.to_space@.elem(q, j) == before.to_space@.elem(q, j));
                        assert(before.to_space@.elem(q, j) is Free);
                    }
                    assert forall|j: int| 0 <= j < i + 1 implies #[trigger] gc.to_space@.elem(q, j) is Value by {
                        if j < i {
                            assert(mid.to_space@.elem(q, j) == before.to_space@.elem(q, j));
                            assert(before.to_space@.elem(q, j) is Value);
                        }
                    }
                }
            }
            i = i + 1;
        }
        proof {
            assert(gc.to_space@.obj_full(q));
        }
        new_vec
    }
}

} // verus!
