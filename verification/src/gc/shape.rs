//! What can be observed of a value: its text, its elements, the content of
//! a cell, down to a given depth.
use vstd::prelude::*;
use crate::eval::MValue;
use crate::gc::collection::gcvalue::{GCValue, GCValueEnum, OtherGCValue};
use crate::gc::gcspace::{Block, Heap};
use crate::gc::GarbageCollector;

verus! {

/// What a value is, without regard to where it lies.
pub enum Shape {
    /// The value lies deeper than was looked.
    Cut,
    /// A string, with its text.
    Text(Seq<char>),
    /// A list, with its elements.
    List(Seq<Shape>),
    /// A boxed cell, with its content.
    Boxed(Box<Shape>),
}

impl Heap {
    /// What `v` is in this store, looked at down to `depth` levels.
    pub open spec fn observe(self, v: MValue, depth: nat) -> Shape
        decreases depth,
    {
        if depth == 0 {
            Shape::Cut
        } else {
            match v {
                MValue::String(s) => Shape::Text(s.text(self)),
                MValue::List(l) => Shape::List(
                    Seq::new(
                        l.len_in(self),
                        |i: int| self.observe(self.elem(l.ptr as nat, i)->Value_0, (depth - 1) as nat),
                    ),
                ),
            }
        }
    }

    /// What the cell `c` is in this store, looked at down to `depth` levels.
    pub open spec fn observe_cell(self, c: GCValue, depth: nat) -> Shape {
        match c.cell {
            GCValueEnum::MValue(v) => self.observe(v, depth),
            GCValueEnum::Other(OtherGCValue::BoxMValue(b)) => if depth == 0 {
                Shape::Cut
            } else {
                Shape::Boxed(Box::new(self.observe(b.value_in(self), (depth - 1) as nat)))
            },
        }
    }

    /// A live value is in a store that extends this one what it is in this one.
    pub proof fn lemma_observe_extends(self, old: Heap, v: MValue, depth: nat)
        requires
            old.well_formed(),
            old.full(),
            self.extends(old),
            v.live_in(old),
        ensures
            self.observe(v, depth) == old.observe(v, depth),
        decreases depth,
    {
        if depth > 0 {
            self.lemma_extends_live(old, v);
            match v {
                MValue::String(s) => {},
                MValue::List(l) => {
                    let p = l.ptr as nat;
                    assert(old.obj_ok(p) && old.obj_full(p));
                    assert forall|i: int| 0 <= i < l.len_in(old) implies self.observe(
                        self.elem(p, i)->Value_0,
                        (depth - 1) as nat,
                    ) == old.observe(old.elem(p, i)->Value_0, (depth - 1) as nat) by {
                        assert(old.elem(p, i) is Value);
                        assert(self.elem(p, i) == old.elem(p, i));
                        self.lemma_observe_extends(old, old.elem(p, i)->Value_0, (depth - 1) as nat);
                    }
                    assert(self.observe(v, depth)->List_0 =~= old.observe(v, depth)->List_0);
                },
            }
        }
    }

    /// A live cell is in a store that extends this one what it is in this one.
    pub proof fn lemma_observe_cell_extends(self, old: Heap, c: GCValue, depth: nat)
        requires
            old.well_formed(),
            old.full(),
            self.extends(old),
            c.live_in(old),
        ensures
            self.observe_cell(c, depth) == old.observe_cell(c, depth),
    {
        match c.cell {
            GCValueEnum::MValue(v) => {
                self.lemma_observe_extends(old, v, depth);
            },
            GCValueEnum::Other(OtherGCValue::BoxMValue(b)) => {
                if depth > 0 {
                    assert(old.obj_ok(b.ptr as nat));
                    self.lemma_observe_extends(old, b.value_in(old), (depth - 1) as nat);
                }
            },
        }
    }
}

impl GarbageCollector {
    /// Once every object of to-space is fully written, what a value has
    /// been forwarded to is in to-space what the value was in from-space
    /// when the cycle began.
    pub proof fn lemma_observe_copied(self, v: MValue, w: MValue, depth: nat)
        requires
            self.collecting(),
            self.to_space@.full(),
            v.live_in(self.origin_heap()),
            v.forward(self.from_space@.blocks) == Some(w),
        ensures
            self.to_space@.observe(w, depth) == self.origin_heap().observe(v, depth),
        decreases depth,
    {
        let o = self.origin_heap();
        let t = self.to_space@;
        let f = self.from_space@;
        if depth > 0 {
            self.lemma_forward_live(v, w);
            match v {
                MValue::String(s) => {},
                MValue::List(l) => {
                    let p = l.ptr as nat;
                    let q = w->List_0.ptr as nat;
                    assert(self.copy_ok(p, q));
                    assert(o.obj_ok(p) && o.obj_full(p));
                    assert(t.obj_full(q));
                    assert forall|i: int| 0 <= i < l.len_in(o) implies t.observe(
                        t.elem(q, i)->Value_0,
                        (depth - 1) as nat,
                    ) == o.observe(o.elem(p, i)->Value_0, (depth - 1) as nat) by {
                        assert(o.elem(p, i) is Value);
                        assert(t.elem(q, i) is Value);
                        self.lemma_observe_copied(
                            o.elem(p, i)->Value_0,
                            t.elem(q, i)->Value_0,
                            (depth - 1) as nat,
                        );
                    }
                    assert(t.observe(w, depth)->List_0 =~= o.observe(v, depth)->List_0);
                },
            }
        }
    }

    /// Once every object of to-space is fully written, what a cell has been
    /// forwarded to is in to-space what the cell was in from-space when the
    /// cycle began; and it is live there.
    pub proof fn lemma_observe_cell_copied(self, c: GCValue, d: GCValue, depth: nat)
        requires
            self.collecting(),
            self.to_space@.full(),
            c.live_in(self.origin_heap()),
            c.forward(self.from_space@.blocks) == Some(d),
        ensures
            self.to_space@.observe_cell(d, depth) == self.origin_heap().observe_cell(c, depth),
            d.live_in(self.to_space@),
    {
        let o = self.origin_heap();
        let t = self.to_space@;
        let f = self.from_space@;
        match c.cell {
            GCValueEnum::MValue(v) => {
                let w = v.forward(f.blocks)->Some_0;
                self.lemma_forward_live(v, w);
                self.lemma_observe_copied(v, w, depth);
            },
            GCValueEnum::Other(OtherGCValue::BoxMValue(b)) => {
                let p = b.ptr as nat;
                let q = f.blocks[p as int]->Forward_0 as nat;
                assert(self.copy_ok(p, q));
                assert(o.obj_ok(p));
                assert(t.obj_full(q));
                if depth > 0 {
                    self.lemma_observe_copied(b.value_in(o), t.blocks[q as int]->Value_0, (depth - 1) as nat);
                }
            },
        }
    }
}

} // verus!
