//! Which allocations a value reaches, and why a cycle copies exactly these.
use vstd::prelude::*;
use crate::eval::MValue;
use crate::gc::collection::gcvalue::{GCValue, GCValueEnum, OtherGCValue};
use crate::gc::gcspace::{Block, Heap};
use crate::gc::primitives::vec::GCVec;
use crate::gc::GarbageCollector;

verus! {

impl Heap {
    /// The allocation at `p` is designated by `v`, or by an element of a
    /// list that `v` reaches, `depth` levels down from `v` at most.
    pub open spec fn reaches(self, v: MValue, p: nat, depth: nat) -> bool
        decreases depth, 0nat,
    {
        depth > 0 && (v.target() == Some(p) || (v matches MValue::List(l) && self.reaches_among(
            l,
            l.len_in(self),
            p,
            (depth - 1) as nat,
        )))
    }

    /// One of the `count` first elements of `l` reaches the allocation at
    /// `p`, `depth` levels down at most.
    pub open spec fn reaches_among(self, l: GCVec, count: nat, p: nat, depth: nat) -> bool
        decreases depth, 1 + count,
    {
        count > 0 && (self.reaches(self.elem(l.ptr as nat, count - 1)->Value_0, p, depth)
            || self.reaches_among(l, (count - 1) as nat, p, depth))
    }

    /// The allocation at `p` is designated by the cell `c`, or by what the
    /// cell holds, `depth` levels down from `c` at most.
    pub open spec fn cell_reaches(self, c: GCValue, p: nat, depth: nat) -> bool {
        match c.cell {
            GCValueEnum::MValue(v) => self.reaches(v, p, depth),
            GCValueEnum::Other(OtherGCValue::BoxMValue(b)) => depth > 0 && (b.ptr == p || self.reaches(
                b.value_in(self),
                p,
                (depth - 1) as nat,
            )),
        }
    }

    /// An element among the `count` first that reaches the allocation at `p`.
    pub proof fn lemma_among_witness(self, l: GCVec, count: nat, p: nat, depth: nat) -> (j: int)
        requires
            self.reaches_among(l, count, p, depth),
        ensures
            0 <= j < count,
            self.reaches(self.elem(l.ptr as nat, j)->Value_0, p, depth),
        decreases count,
    {
        if self.reaches(self.elem(l.ptr as nat, count - 1)->Value_0, p, depth) {
            count - 1
        } else {
            self.lemma_among_witness(l, (count - 1) as nat, p, depth)
        }
    }

    /// What an element reaches is reached among the elements.
    pub proof fn lemma_among_intro(self, l: GCVec, count: nat, j: int, p: nat, depth: nat)
        requires
            0 <= j < count,
            self.reaches(self.elem(l.ptr as nat, j)->Value_0, p, depth),
        ensures
            self.reaches_among(l, count, p, depth),
        decreases count,
    {
        if j < count - 1 {
            self.lemma_among_intro(l, (count - 1) as nat, j, p, depth);
        }
    }

    /// What is reached within some depth is reached within any greater depth.
    pub proof fn lemma_reaches_deeper(self, v: MValue, p: nat, depth: nat, deeper: nat)
        requires
            self.reaches(v, p, depth),
            depth <= deeper,
        ensures
            self.reaches(v, p, deeper),
        decreases depth,
    {
        if v.target() != Some(p) {
            let l = v->List_0;
            let j = self.lemma_among_witness(l, l.len_in(self), p, (depth - 1) as nat);
            self.lemma_reaches_deeper(
                self.elem(l.ptr as nat, j)->Value_0,
                p,
                (depth - 1) as nat,
                (deeper - 1) as nat,
            );
            self.lemma_among_intro(l, l.len_in(self), j, p, (deeper - 1) as nat);
        }
    }

    /// What a live value reaches is a string or a list.
    pub proof fn lemma_reaches_target(self, v: MValue, p: nat, depth: nat)
        requires
            self.well_formed(),
            self.full(),
            v.live_in(self),
            self.reaches(v, p, depth),
        ensures
            self.sizes.contains_key(p),
            self.blocks[p as int] is Len || self.blocks[p as int] is Bytes,
        decreases depth,
    {
        if v.target() == Some(p) {
            match v {
                MValue::String(s) => {
                    assert(self.blocks[s.ptr + 0int] is Bytes);
                },
                MValue::List(l) => {},
            }
        } else {
            let l = v->List_0;
            let j = self.lemma_among_witness(l, l.len_in(self), p, (depth - 1) as nat);
            assert(self.obj_ok(l.ptr as nat) && self.obj_full(l.ptr as nat));
            assert(self.elem(l.ptr as nat, j) is Value);
            self.lemma_reaches_target(self.elem(l.ptr as nat, j)->Value_0, p, (depth - 1) as nat);
        }
    }

    /// What a list that `v` reaches holds is reached by `v`, one level deeper.
    pub proof fn lemma_reaches_step(self, v: MValue, p: nat, depth: nat, i: int, p2: nat)
        requires
            self.well_formed(),
            self.full(),
            v.live_in(self),
            self.reaches(v, p, depth),
            self.blocks[p as int] is Len,
            0 <= i < self.blocks[p as int]->Len_0,
            self.elem(p, i)->Value_0.target() == Some(p2),
        ensures
            self.reaches(v, p2, depth + 1),
        decreases depth,
    {
        if v.target() == Some(p) {
            match v {
                MValue::String(s) => {
                    assert(self.blocks[s.ptr + 0int] is Bytes);
                },
                MValue::List(l) => {
                    assert(self.reaches(self.elem(p, i)->Value_0, p2, 1));
                    self.lemma_reaches_deeper(self.elem(p, i)->Value_0, p2, 1, depth);
                    self.lemma_among_intro(l, l.len_in(self), i, p2, depth);
                },
            }
        } else {
            let l = v->List_0;
            let j = self.lemma_among_witness(l, l.len_in(self), p, (depth - 1) as nat);
            assert(self.obj_ok(l.ptr as nat) && self.obj_full(l.ptr as nat));
            assert(self.elem(l.ptr as nat, j) is Value);
            self.lemma_reaches_step(self.elem(l.ptr as nat, j)->Value_0, p, (depth - 1) as nat, i, p2);
            self.lemma_among_intro(l, l.len_in(self), j, p2, depth);
        }
    }

    /// What an allocation that the cell `c` reaches holds is reached by `c`.
    pub proof fn lemma_cell_reaches_step(self, c: GCValue, p: nat, depth: nat, p2: nat)
        requires
            self.well_formed(),
            self.full(),
            c.live_in(self),
            self.cell_reaches(c, p, depth),
            self.sizes.contains_key(p),
            match self.blocks[p as int] {
                Block::Len(n) => exists|i: int| 0 <= i < n && (#[trigger] self.elem(p, i))->Value_0.target() == Some(p2),
                Block::Value(v) => v.target() == Some(p2),
                _ => false,
            },
        ensures
            self.cell_reaches(c, p2, depth + 1),
    {
        match c.cell {
            GCValueEnum::MValue(v) => {
                self.lemma_reaches_target(v, p, depth);
                let i = choose|i: int|
                    0 <= i < self.blocks[p as int]->Len_0 && (#[trigger] self.elem(p, i))->Value_0.target() == Some(p2);
                self.lemma_reaches_step(v, p, depth, i, p2);
            },
            GCValueEnum::Other(OtherGCValue::BoxMValue(b)) => {
                assert(self.obj_ok(b.ptr as nat));
                if b.ptr == p {
                    assert(self.reaches(b.value_in(self), p2, 1));
                    self.lemma_reaches_deeper(b.value_in(self), p2, 1, depth);
                } else {
                    self.lemma_reaches_target(b.value_in(self), p, (depth - 1) as nat);
                    let i = choose|i: int|
                        0 <= i < self.blocks[p as int]->Len_0 && (#[trigger] self.elem(p, i))->Value_0.target() == Some(p2);
                    self.lemma_reaches_step(b.value_in(self), p, (depth - 1) as nat, i, p2);
                }
            },
        }
    }
}

impl GarbageCollector {
    /// Once every object of to-space is fully written, every allocation
    /// that a forwarded value reaches carries a forwarding marker.
    pub proof fn lemma_reached_marked(self, v: MValue, p: nat, depth: nat)
        requires
            self.collecting(),
            self.to_space@.full(),
            v.live_in(self.origin_heap()),
            v.forward(self.from_space@.blocks) is Some,
            self.origin_heap().reaches(v, p, depth),
        ensures
            self.from_space@.sizes.contains_key(p),
            self.from_space@.blocks[p as int] is Forward,
        decreases depth,
    {
        let o = self.origin_heap();
        let f = self.from_space@;
        let t = self.to_space@;
        if v.target() == Some(p) {
            match v {
                MValue::String(s) => {},
                MValue::List(l) => {},
            }
        } else {
            let l = v->List_0;
            let pl = l.ptr as nat;
            let ql = f.blocks[pl as int]->Forward_0 as nat;
            let j = o.lemma_among_witness(l, l.len_in(o), p, (depth - 1) as nat);
            assert(self.copy_ok(pl, ql));
            assert(o.obj_ok(pl) && o.obj_full(pl));
            assert(t.obj_full(ql));
            assert(o.elem(pl, j) is Value);
            assert(t.elem(ql, j) is Value);
            self.lemma_reached_marked(o.elem(pl, j)->Value_0, p, (depth - 1) as nat);
        }
    }

    /// Once every object of to-space is fully written, every allocation
    /// that a forwarded cell reaches carries a forwarding marker.
    pub proof fn lemma_cell_reached_marked(self, c: GCValue, p: nat, depth: nat)
        requires
            self.collecting(),
            self.to_space@.full(),
            c.live_in(self.origin_heap()),
            c.forward(self.from_space@.blocks) is Some,
            self.origin_heap().cell_reaches(c, p, depth),
        ensures
            self.from_space@.sizes.contains_key(p),
            self.from_space@.blocks[p as int] is Forward,
    {
        let o = self.origin_heap();
        let f = self.from_space@;
        let t = self.to_space@;
        match c.cell {
            GCValueEnum::MValue(v) => {
                self.lemma_reached_marked(v, p, depth);
            },
            GCValueEnum::Other(OtherGCValue::BoxMValue(b)) => {
                if b.ptr != p {
                    let pb = b.ptr as nat;
                    let qb = f.blocks[pb as int]->Forward_0 as nat;
                    assert(self.copy_ok(pb, qb));
                    assert(o.obj_ok(pb));
                    assert(t.obj_full(qb));
                    self.lemma_reached_marked(b.value_in(o), p, (depth - 1) as nat);
                }
            },
        }
    }
}

} // verus!
