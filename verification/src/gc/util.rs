use vstd::prelude::*;
use vstd::string::*;
use crate::eval::MValue;
use crate::gc::collection::gcvalue::{GCValue, GCValueEnum, OtherGCValue};
use crate::gc::gcspace::{GCPtr, Heap};
use crate::gc::primitives::boxed::GCBox;
use crate::gc::primitives::string::GCString;
use crate::gc::primitives::vec::GCVec;
use crate::gc::GarbageCollector;

verus! {

/// A value together with the collector that it is live in, so that it can
/// be read, shown and compared.
pub struct GCWrap<'gc, T: GCPtr> {
    inner: T,
    gc: &'gc GarbageCollector,
}

/// How `{:?}` shows a string of the given text: between quotes, with escapes.
pub uninterp spec fn str_debug(text: Seq<char>) -> Seq<char>;

/// Shows a string as `{:?}` does. Wraps `format!` with the `Debug`
/// formatting of `str`; the result depends on the text alone.
#[verifier::external_body]
fn debug_str(s: &str) -> (r: String)
    ensures
        r@ == str_debug(s@),
{
    format!("{:?}", s)
}

impl Heap {
    /// How `v` is shown, looked at down to `depth` levels: a string as
    /// `{:?}` shows it, a list between brackets with `, ` between its
    /// elements, and `...` for what lies deeper.
    pub open spec fn render(self, v: MValue, depth: nat) -> Seq<char>
        decreases depth, 0nat,
    {
        if depth == 0 {
            seq!['.', '.', '.']
        } else {
            match v {
                MValue::String(s) => str_debug(s.text(self)),
                MValue::List(l) => seq!['['] + self.render_elems(l, l.len_in(self), (depth - 1) as nat)
                    + seq![']'],
            }
        }
    }

    /// How the `count` first elements of `l` are shown, each looked at down
    /// to `depth` levels.
    pub open spec fn render_elems(self, l: GCVec, count: nat, depth: nat) -> Seq<char>
        decreases depth, 1 + count,
    {
        if count == 0 {
            Seq::empty()
        } else {
            let last = self.render(self.elem(l.ptr as nat, count - 1)->Value_0, depth);
            if count == 1 {
                last
            } else {
                self.render_elems(l, (count - 1) as nat, depth) + seq![',', ' '] + last
            }
        }
    }

    /// How the cell `c` is shown: a boxed cell as its content.
    pub open spec fn render_cell(self, c: GCValue, depth: nat) -> Seq<char> {
        match c.cell {
            GCValueEnum::MValue(v) => self.render(v, depth),
            GCValueEnum::Other(OtherGCValue::BoxMValue(b)) => self.render(b.value_in(self), depth),
        }
    }
}

/// Shows `v`, looked at down to `depth` levels.
fn debug_at(v: MValue, gc: &GarbageCollector, depth: usize) -> (r: String)
    requires
        gc.wf(),
        v.live_in(gc.heap()),
    ensures
        r@ == gc.heap().render(v, depth as nat),
    decreases depth,
{
    if depth == 0 {
        proof {
            reveal_strlit("...");
            assert("..."@ =~= seq!['.', '.', '.']);
        }
        return "...".to_owned();
    }
    match v {
        MValue::String(gcstring) => {
            let text = gcstring.get(gc);
            debug_str(text.as_str())
        },
        MValue::List(gcvec) => {
            let elements = gcvec.as_slice(gc);
            proof {
                reveal_strlit("[");
                reveal_strlit("]");
                reveal_strlit(", ");
                assert("["@ =~= seq!['[']);
                assert("]"@ =~= seq![']']);
                assert(", "@ =~= seq![',', ' ']);
                assert(gc.heap().obj_ok(gcvec.ptr as nat));
                assert(gc.heap().obj_full(gcvec.ptr as nat));
            }
            let mut inner = String::new();
            let mut i: usize = 0;
            while i < elements.len()
                invariant
                    i <= elements@.len(),
                    gc.wf(),
                    gcvec.live_in(gc.heap()),
                    elements@ == gcvec.elems_in(gc.heap()),
                    depth > 0,
                    ", "@ == seq![',', ' '],
                    inner@ == gc.heap().render_elems(gcvec, i as nat, (depth - 1) as nat),
                decreases elements@.len() - i,
            {
                proof {
                    assert(gc.heap().obj_ok(gcvec.ptr as nat));
                    assert(gc.heap().elem(gcvec.ptr as nat, i as int) is Value);
                    assert(elements@[i as int] == gc.heap().elem(gcvec.ptr as nat, i as int)->Value_0);
                }
                if i > 0 {
                    inner.append(", ");
                }
                let shown = debug_at(elements[i], gc, depth - 1);
                inner.append(shown.as_str());
                i = i + 1;
            }
            let mut out = "[".to_owned();
            out.append(inner.as_str());
            out.append("]");
            out
        },
    }
}

/// Showing of garbage-collected objects.
pub trait GCDebug: GCPtr {
    /// How the value is shown in `h`.
    spec fn shown(self, h: Heap) -> Seq<char>;

    /// Shows the value, which must be live in `gc`. No object lies deeper
    /// than there are blocks, unless an object reaches itself; such an
    /// object is shown down to that depth.
    fn gc_debug(self, gc: &GarbageCollector) -> (r: String)
        requires
            gc.wf(),
            self.valid_in(gc.heap()),
        ensures
            r@ == self.shown(gc.heap()),
    ;

    /// Pairs the value, which must be live in `gc`, with `gc`, so that it
    /// can be shown and compared.
    fn wrap<'gc>(self, gc: &'gc GarbageCollector) -> (r: GCWrap<'gc, Self>)
        requires
            gc.wf(),
            self.valid_in(gc.heap()),
        ensures
            r.value() == self,
            r.heap() == gc.heap(),
    {
        GCWrap::new(self, gc)
    }
}

impl GCDebug for MValue {
    open spec fn shown(self, h: Heap) -> Seq<char> {
        h.render(self, h.len)
    }

    fn gc_debug(self, gc: &GarbageCollector) -> (r: String) {
        debug_at(self, gc, gc.len())
    }
}

impl GCDebug for GCString {
    open spec fn shown(self, h: Heap) -> Seq<char> {
        str_debug(self.text(h))
    }

    fn gc_debug(self, gc: &GarbageCollector) -> (r: String) {
        let text = self.get(gc);
        debug_str(text.as_str())
    }
}

impl GCDebug for GCVec {
    open spec fn shown(self, h: Heap) -> Seq<char> {
        h.render(MValue::List(self), h.len)
    }

    fn gc_debug(self, gc: &GarbageCollector) -> (r: String) {
        debug_at(MValue::List(self), gc, gc.len())
    }
}

impl GCDebug for GCBox {
    open spec fn shown(self, h: Heap) -> Seq<char> {
        h.render(self.value_in(h), h.len)
    }

    fn gc_debug(self, gc: &GarbageCollector) -> (r: String) {
        proof {
            assert(gc.heap().obj_ok(self.ptr as nat));
        }
        self.get(gc).gc_debug(gc)
    }
}

impl GCDebug for GCValue {
    open spec fn shown(self, h: Heap) -> Seq<char> {
        h.render_cell(self, h.len)
    }

    fn gc_debug(self, gc: &GarbageCollector) -> (r: String) {
        match self.get() {
            GCValueEnum::MValue(mvalue) => mvalue.gc_debug(gc),
            GCValueEnum::Other(other_gcvalue) => match other_gcvalue {
                OtherGCValue::BoxMValue(gcbox) => gcbox.gc_debug(gc),
            },
        }
    }
}

/// Reading of what a garbage-collected pointer designates.
pub trait GCGet: GCPtr {
    /// What a pointer of this type designates.
    type Borrowed;

    /// What the pointer designates in `h`.
    spec fn target(self, h: Heap) -> Self::Borrowed;

    /// Reads what the pointer designates, which must be live in `gc`.
    fn gc_get(&self, gc: &GarbageCollector) -> (r: Self::Borrowed)
        requires
            gc.wf(),
            self.valid_in(gc.heap()),
        ensures
            r == self.target(gc.heap()),
    ;
}

impl GCGet for GCBox {
    type Borrowed = MValue;

    open spec fn target(self, h: Heap) -> MValue {
        self.value_in(h)
    }

    fn gc_get(&self, gc: &GarbageCollector) -> (r: MValue) {
        self.get(gc)
    }
}

/// Comparison of a garbage-collected value with a value of another type.
pub trait GCEq<Rhs: ?Sized>: GCPtr {
    /// Whether the value in `h` equals `rhs`.
    spec fn equals(self, h: Heap, rhs: &Rhs) -> bool;

    /// Compares the value, which must be live in `gc`, with `rhs`.
    fn gc_eq(&self, gc: &GarbageCollector, rhs: &Rhs) -> (r: bool)
        requires
            gc.wf(),
            self.valid_in(gc.heap()),
        ensures
            r == self.equals(gc.heap(), rhs),
    ;
}

impl GCEq<str> for GCString {
    open spec fn equals(self, h: Heap, rhs: &str) -> bool {
        self.text(h) == rhs@
    }

    fn gc_eq(&self, gc: &GarbageCollector, rhs: &str) -> (r: bool) {
        let text = self.get(gc);
        let other = rhs.to_owned();
        text == other
    }
}

impl<'gc, T: GCPtr> GCWrap<'gc, T> {
    /// The wrapped value is live in the collector that it is wrapped with.
    #[verifier::type_invariant]
    closed spec fn wf(self) -> bool {
        self.gc.wf() && self.inner.valid_in(self.gc.heap())
    }

    /// The wrapped value.
    pub closed spec fn value(self) -> T {
        self.inner
    }

    /// The live store of the collector that the value is wrapped with.
    pub closed spec fn heap(self) -> Heap {
        self.gc.heap()
    }

    /// Wraps a value, which must be live in `gc`.
    pub fn new(inner: T, gc: &'gc GarbageCollector) -> (r: Self)
        requires
            gc.wf(),
            inner.valid_in(gc.heap()),
        ensures
            r.value() == inner,
            r.heap() == gc.heap(),
    {
        Self { inner, gc }
    }
}

impl<'gc, T: GCDebug> GCWrap<'gc, T> {
    /// Shows the wrapped value.
    pub fn debug(&self) -> (r: String)
        ensures
            r@ == self.value().shown(self.heap()),
    {
        proof {
            use_type_invariant(self);
        }
        self.inner.gc_debug(self.gc)
    }
}

impl<'gc> GCWrap<'gc, GCString> {
    /// The text of the wrapped string.
    pub fn get(&self) -> (r: String)
        ensures
            r@ == self.value().text(self.heap()),
    {
        proof {
            use_type_invariant(self);
        }
        self.inner.get(self.gc)
    }
}

impl<'gc> GCEq<GCWrap<'gc, GCString>> for GCString {
    open spec fn equals(self, h: Heap, rhs: &GCWrap<'gc, GCString>) -> bool {
        self.text(h) == rhs.value().text(rhs.heap())
    }

    fn gc_eq(&self, gc: &GarbageCollector, rhs: &GCWrap<'gc, GCString>) -> (r: bool) {
        let text = self.get(gc);
        let other = rhs.get();
        text == other
    }
}

} // verus!
