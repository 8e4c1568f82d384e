use vstd::prelude::*;
use vstd::std_specs::convert::{FromSpecImpl, TryFromSpecImpl};
use crate::eval::MValue;
use crate::gc::gcspace::{Block, GCPtr, Heap};
use crate::gc::GarbageCollector;
use crate::gc::primitives::boxed::GCBox;
use crate::gc::primitives::string::GCString;
use crate::gc::primitives::vec::GCVec;

verus! {

/// A cell of a root frame: a language value or one of the auxiliary forms.
#[derive(Clone, Copy)]
pub struct GCValue {
    pub cell: GCValueEnum,
}

/// What a cell holds, told apart.
#[derive(Clone, Copy)]
pub enum GCValueEnum {
    MValue(MValue),
    Other(OtherGCValue),
}

/// The auxiliary forms of a cell.
#[derive(Clone, Copy)]
pub enum OtherGCValue {
    BoxMValue(GCBox),
}

impl GCValue {
    /// Tells the two families of values apart.
    pub fn get(&self) -> (r: GCValueEnum)
        ensures
            r == self.cell,
    {
        self.cell
    }

    /// The cell designates a live object of `h`, or holds its data inline.
    pub open spec fn live_in(self, h: Heap) -> bool {
        match self.cell {
            GCValueEnum::MValue(v) => v.live_in(h),
            GCValueEnum::Other(OtherGCValue::BoxMValue(b)) => b.live_in(h),
        }
    }

    /// Offset of the allocation that the cell designates, if it designates one.
    pub open spec fn target(self) -> Option<nat> {
        match self.cell {
            GCValueEnum::MValue(v) => v.target(),
            GCValueEnum::Other(OtherGCValue::BoxMValue(b)) => Some(b.ptr as nat),
        }
    }

    /// Where the cell has been moved to, going by the forwarding markers in `blocks`.
    pub open spec fn forward(self, blocks: Seq<Block>) -> Option<GCValue> {
        match self.cell {
            GCValueEnum::MValue(v) => match v.forward(blocks) {
                Some(w) => Some(GCValue { cell: GCValueEnum::MValue(w) }),
                None => None,
            },
            GCValueEnum::Other(OtherGCValue::BoxMValue(b)) => match b.forward(blocks) {
                Some(c) => Some(GCValue { cell: GCValueEnum::Other(OtherGCValue::BoxMValue(c)) }),
                None => None,
            },
        }
    }

    /// The language value in the cell, if it holds one.
    pub open spec fn mvalue(self) -> Option<MValue> {
        match self.cell {
            GCValueEnum::MValue(v) => Some(v),
            GCValueEnum::Other(_) => None,
        }
    }

    /// The language value in the cell, if it holds one.
    pub fn as_mvalue(self) -> (r: Option<MValue>)
        ensures
            r == self.mvalue(),
    {
        match self.get() {
            GCValueEnum::MValue(v) => Some(v),
            GCValueEnum::Other(_) => None,
        }
    }
}

impl GCPtr for GCValue {
    const MSB_RESERVED: bool = true;

    open spec fn valid_in(self, h: Heap) -> bool {
        self.live_in(h)
    }

    open spec fn pointee(self) -> Option<nat> {
        self.target()
    }

    open spec fn forwarded(self, blocks: Seq<Block>) -> Option<Self> {
        self.forward(blocks)
    }

    fn gc_copy(self, gc: &mut GarbageCollector) -> (r: Self)
        decreases old(gc).pending_blocks(), 2nat,
    {
        match self.get() {
            GCValueEnum::MValue(mvalue) => GCValue::from(mvalue.gc_copy(gc)),
            GCValueEnum::Other(other_gcvalue) => match other_gcvalue {
                OtherGCValue::BoxMValue(mbox) => GCValue::from(mbox.gc_copy(gc)),
            },
        }
    }
}

impl TryFrom<GCValue> for MValue {
    type Error = ();

    fn try_from(value: GCValue) -> (r: Result<Self, Self::Error>) {
        if let GCValueEnum::MValue(value) = value.get() {
            Ok(value)
        } else {
            Err(())
        }
    }
}

impl TryFromSpecImpl<GCValue> for MValue {
    open spec fn obeys_try_from_spec() -> bool {
        true
    }

    open spec fn try_from_spec(value: GCValue) -> Result<Self, Self::Error> {
        match value.cell {
            GCValueEnum::MValue(v) => Ok(v),
            GCValueEnum::Other(_) => Err(()),
        }
    }
}

impl From<OtherGCValue> for GCValue {
    fn from(value: OtherGCValue) -> (r: Self) {
        GCValue { cell: GCValueEnum::Other(value) }
    }
}

impl FromSpecImpl<OtherGCValue> for GCValue {
    open spec fn obeys_from_spec() -> bool {
        true
    }

    open spec fn from_spec(value: OtherGCValue) -> Self {
        GCValue { cell: GCValueEnum::Other(value) }
    }
}

impl From<MValue> for GCValue {
    fn from(value: MValue) -> (r: Self) {
        GCValue { cell: GCValueEnum::MValue(value) }
    }
}

impl FromSpecImpl<MValue> for GCValue {
    open spec fn obeys_from_spec() -> bool {
        true
    }

    open spec fn from_spec(value: MValue) -> Self {
        GCValue { cell: GCValueEnum::MValue(value) }
    }
}

impl From<GCBox> for GCValue {
    fn from(value: GCBox) -> (r: Self) {
        GCValue { cell: GCValueEnum::Other(OtherGCValue::BoxMValue(value)) }
    }
}

impl FromSpecImpl<GCBox> for GCValue {
    open spec fn obeys_from_spec() -> bool {
        true
    }

    open spec fn from_spec(value: GCBox) -> Self {
        GCValue { cell: GCValueEnum::Other(OtherGCValue::BoxMValue(value)) }
    }
}

impl From<GCString> for GCValue {
    fn from(value: GCString) -> (r: Self) {
        GCValue { cell: GCValueEnum::MValue(MValue::String(value)) }
    }
}

impl FromSpecImpl<GCString> for GCValue {
    open spec fn obeys_from_spec() -> bool {
        true
    }

    open spec fn from_spec(value: GCString) -> Self {
        GCValue { cell: GCValueEnum::MValue(MValue::String(value)) }
    }
}

impl From<GCVec> for GCValue {
    fn from(value: GCVec) -> (r: Self) {
        GCValue { cell: GCValueEnum::MValue(MValue::List(value)) }
    }
}

impl FromSpecImpl<GCVec> for GCValue {
    open spec fn obeys_from_spec() -> bool {
        true
    }

    open spec fn from_spec(value: GCVec) -> Self {
        GCValue { cell: GCValueEnum::MValue(MValue::List(value)) }
    }
}

} // verus!
