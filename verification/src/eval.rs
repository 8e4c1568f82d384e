use vstd::prelude::*;
use vstd::std_specs::convert::FromSpecImpl;
use crate::gc::gcspace::{Block, GCPtr, Heap};
use crate::gc::GarbageCollector;
use crate::gc::primitives::string::GCString;
use crate::gc::primitives::vec::GCVec;

verus! {

/// Whether the leading bit of a stored value is always zero, so that a boxed
/// cell can keep its forwarding flag in the first block of the value.
pub const VALUE_MSB_RESERVED: bool = true;

/// A language value: a string or a list of values.
#[derive(Clone, Copy)]
pub enum MValue {
    String(GCString),
    List(GCVec),
}

impl MValue {
    /// The value designates a live object of `h`, or holds its data inline.
    pub open spec fn live_in(self, h: Heap) -> bool {
        match self {
            MValue::String(s) => s.live_in(h),
            MValue::List(l) => l.live_in(h),
        }
    }

    /// Offset of the allocation that the value designates, if it designates one.
    pub open spec fn target(self) -> Option<nat> {
        match self {
            MValue::String(s) => if s.ptr == 0 {
                None
            } else {
                Some(s.ptr as nat)
            },
            MValue::List(l) => Some(l.ptr as nat),
        }
    }

    /// Where the value has been moved to, going by the forwarding markers in `blocks`.
    pub open spec fn forward(self, blocks: Seq<Block>) -> Option<MValue> {
        match self {
            MValue::String(s) => match s.forward(blocks) {
                Some(t) => Some(MValue::String(t)),
                None => None,
            },
            MValue::List(l) => match l.forward(blocks) {
                Some(m) => Some(MValue::List(m)),
                None => None,
            },
        }
    }
}

impl GCPtr for MValue {
    const MSB_RESERVED: bool = VALUE_MSB_RESERVED;

    open spec fn valid_in(self, h: Heap) -> bool {
        self.live_in(h)
    }

    open spec fn pointee(self) -> Option<nat> {
        self.target()
    }

    open spec fn forwarded(self, blocks: Seq<Block>) -> Option<Self> {
        self.forward(blocks)
    }

    fn gc_copy(self, gc: &mut GarbageCollector) -> (r: Self)
        decreases old(gc).pending_blocks(), 1nat,
    {
        match self {
            MValue::String(gcstring) => MValue::String(gcstring.gc_copy(gc)),
            MValue::List(gcvec) => MValue::List(gcvec.gc_copy(gc)),
        }
    }
}

impl From<GCString> for MValue {
    fn from(value: GCString) -> (r: Self) {
        MValue::String(value)
    }
}

impl FromSpecImpl<GCString> for MValue {
    open spec fn obeys_from_spec() -> bool {
        true
    }

    open spec fn from_spec(value: GCString) -> Self {
        MValue::String(value)
    }
}

impl From<GCVec> for MValue {
    fn from(value: GCVec) -> (r: Self) {
        MValue::List(value)
    }
}

impl FromSpecImpl<GCVec> for MValue {
    open spec fn obeys_from_spec() -> bool {
        true
    }

    open spec fn from_spec(value: GCVec) -> Self {
        MValue::List(value)
    }
}

} // verus!
