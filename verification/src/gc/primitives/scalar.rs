//! Values that hold no pointer into the heap: a copy of one is the value
//! itself, and the collector is left as it is.
use vstd::prelude::*;
use crate::gc::gcspace::{Block, GCPtr, Heap};
use crate::gc::GarbageCollector;

verus! {

impl GCPtr for u8 {
    const MSB_RESERVED: bool = false;

    open spec fn valid_in(self, h: Heap) -> bool {
        true
    }

    open spec fn pointee(self) -> Option<nat> {
        None
    }

    open spec fn forwarded(self, blocks: Seq<Block>) -> Option<Self> {
        Some(self)
    }

    fn gc_copy(self, gc: &mut GarbageCollector) -> (r: Self) {
        proof {
            gc.lemma_advanced_refl();
        }
        self
    }
}

impl GCPtr for u16 {
    const MSB_RESERVED: bool = false;

    open spec fn valid_in(self, h: Heap) -> bool {
        true
    }

    open spec fn pointee(self) -> Option<nat> {
        None
    }

    open spec fn forwarded(self, blocks: Seq<Block>) -> Option<Self> {
        Some(self)
    }

    fn gc_copy(self, gc: &mut GarbageCollector) -> (r: Self) {
        proof {
            gc.lemma_advanced_refl();
        }
        self
    }
}

impl GCPtr for u32 {
    const MSB_RESERVED: bool = false;

    open spec fn valid_in(self, h: Heap) -> bool {
        true
    }

    open spec fn pointee(self) -> Option<nat> {
        None
    }

    open spec fn forwarded(self, blocks: Seq<Block>) -> Option<Self> {
        Some(self)
    }

    fn gc_copy(self, gc: &mut GarbageCollector) -> (r: Self) {
        proof {
            gc.lemma_advanced_refl();
        }
        self
    }
}

impl GCPtr for u64 {
    const MSB_RESERVED: bool = false;

    open spec fn valid_in(self, h: Heap) -> bool {
        true
    }

    open spec fn pointee(self) -> Option<nat> {
        None
    }

    open spec fn forwarded(self, blocks: Seq<Block>) -> Option<Self> {
        Some(self)
    }

    fn gc_copy(self, gc: &mut GarbageCollector) -> (r: Self) {
        proof {
            gc.lemma_advanced_refl();
        }
        self
    }
}

impl GCPtr for usize {
    const MSB_RESERVED: bool = false;

    open spec fn valid_in(self, h: Heap) -> bool {
        true
    }

    open spec fn pointee(self) -> Option<nat> {
        None
    }

    open spec fn forwarded(self, blocks: Seq<Block>) -> Option<Self> {
        Some(self)
    }

    fn gc_copy(self, gc: &mut GarbageCollector) -> (r: Self) {
        proof {
            gc.lemma_advanced_refl();
        }
        self
    }
}

impl GCPtr for i8 {
    const MSB_RESERVED: bool = false;

    open spec fn valid_in(self, h: Heap) -> bool {
        true
    }

    open spec fn pointee(self) -> Option<nat> {
        None
    }

    open spec fn forwarded(self, blocks: Seq<Block>) -> Option<Self> {
        Some(self)
    }

    fn gc_copy(self, gc: &mut GarbageCollector) -> (r: Self) {
        proof {
            gc.lemma_advanced_refl();
        }
        self
    }
}

impl GCPtr for i16 {
    const MSB_RESERVED: bool = false;

    open spec fn valid_in(self, h: Heap) -> bool {
        true
    }

    open spec fn pointee(self) -> Option<nat> {
        None
    }

    open spec fn forwarded(self, blocks: Seq<Block>) -> Option<Self> {
        Some(self)
    }

    fn gc_copy(self, gc: &mut GarbageCollector) -> (r: Self) {
        proof {
            gc.lemma_advanced_refl();
        }
        self
    }
}

impl GCPtr for i32 {
    const MSB_RESERVED: bool = false;

    open spec fn valid_in(self, h: Heap) -> bool {
        true
    }

    open spec fn pointee(self) -> Option<nat> {
        None
    }

    open spec fn forwarded(self, blocks: Seq<Block>) -> Option<Self> {
        Some(self)
    }

    fn gc_copy(self, gc: &mut GarbageCollector) -> (r: Self) {
        proof {
            gc.lemma_advanced_refl();
        }
        self
    }
}

impl GCPtr for i64 {
    const MSB_RESERVED: bool = false;

    open spec fn valid_in(self, h: Heap) -> bool {
        true
    }

    open spec fn pointee(self) -> Option<nat> {
        None
    }

    open spec fn forwarded(self, blocks: Seq<Block>) -> Option<Self> {
        Some(self)
    }

    fn gc_copy(self, gc: &mut GarbageCollector) -> (r: Self) {
        proof {
            gc.lemma_advanced_refl();
        }
        self
    }
}

impl GCPtr for isize {
    const MSB_RESERVED: bool = false;

    open spec fn valid_in(self, h: Heap) -> bool {
        true
    }

    open spec fn pointee(self) -> Option<nat> {
        None
    }

    open spec fn forwarded(self, blocks: Seq<Block>) -> Option<Self> {
        Some(self)
    }

    fn gc_copy(self, gc: &mut GarbageCollector) -> (r: Self) {
        proof {
            gc.lemma_advanced_refl();
        }
        self
    }
}

impl GCPtr for bool {
    const MSB_RESERVED: bool = false;

    open spec fn valid_in(self, h: Heap) -> bool {
        true
    }

    open spec fn pointee(self) -> Option<nat> {
        None
    }

    open spec fn forwarded(self, blocks: Seq<Block>) -> Option<Self> {
        Some(self)
    }

    fn gc_copy(self, gc: &mut GarbageCollector) -> (r: Self) {
        proof {
            gc.lemma_advanced_refl();
        }
        self
    }
}

impl GCPtr for char {
    const MSB_RESERVED: bool = false;

    open spec fn valid_in(self, h: Heap) -> bool {
        true
    }

    open spec fn pointee(self) -> Option<nat> {
        None
    }

    open spec fn forwarded(self, blocks: Seq<Block>) -> Option<Self> {
        Some(self)
    }

    fn gc_copy(self, gc: &mut GarbageCollector) -> (r: Self) {
        proof {
            gc.lemma_advanced_refl();
        }
        self
    }
}

} // verus!
