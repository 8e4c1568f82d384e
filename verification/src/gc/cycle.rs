//! The state of a collector while a cycle runs, and what each step of a copy
//! keeps of it.
use vstd::prelude::*;
use crate::eval::MValue;
use crate::gc::collection::gcvalue::{GCValue, GCValueEnum, OtherGCValue};
use crate::gc::gcspace::{tiled, tiled_end, lemma_tiled_order, Block, Heap};
use crate::gc::primitives::vec::{elem_at, VALUE_BLOCKS};
use crate::gc::{blocks_for, GarbageCollector};

verus! {

/// Number of blocks taken up by those of the `n` first allocations of
/// `order` that carry no forwarding marker in `blocks`.
pub open spec fn pending(order: Seq<nat>, sizes: Map<nat, nat>, blocks: Seq<Block>, n: nat) -> nat
    decreases n,
{
    if n == 0 {
        0
    } else {
        pending(order, sizes, blocks, (n - 1) as nat) + if blocks[order[n - 1] as int] is Forward {
            0
        } else {
            sizes[order[n - 1]]
        }
    }
}

/// Without any forwarding marker, all allocated blocks are pending.
pub proof fn lemma_pending_total(order: Seq<nat>, sizes: Map<nat, nat>, blocks: Seq<Block>, n: nat)
    requires
        tiled(order, sizes, n),
        n <= order.len(),
        forall|i: int| 0 <= i < n ==> !(#[trigger] blocks[order[i] as int] is Forward),
    ensures
        pending(order, sizes, blocks, n) + 1 == tiled_end(order, sizes, n),
    decreases n,
{
    if n > 0 {
        lemma_pending_total(order, sizes, blocks, (n - 1) as nat);
        assert(!(blocks[order[n - 1] as int] is Forward));
    }
}

/// An allocation without forwarding marker counts among the pending blocks.
pub proof fn lemma_pending_ge(order: Seq<nat>, sizes: Map<nat, nat>, blocks: Seq<Block>, n: nat, k: int)
    requires
        0 <= k < n <= order.len(),
        !(blocks[order[k] as int] is Forward),
    ensures
        pending(order, sizes, blocks, n) >= sizes[order[k]],
    decreases n,
{
    if k < n - 1 {
        lemma_pending_ge(order, sizes, blocks, (n - 1) as nat, k);
    }
}

/// Writing a block that heads none of the `n` first allocations leaves
/// their pending blocks as they are.
pub proof fn lemma_pending_frame(
    order: Seq<nat>,
    sizes: Map<nat, nat>,
    blocks: Seq<Block>,
    n: nat,
    at: int,
    block: Block,
)
    requires
        n <= order.len(),
        0 <= at < blocks.len(),
        forall|i: int| 0 <= i < n ==> #[trigger] order[i] != at && order[i] < blocks.len(),
    ensures
        pending(order, sizes, blocks.update(at, block), n) == pending(order, sizes, blocks, n),
    decreases n,
{
    if n > 0 {
        lemma_pending_frame(order, sizes, blocks, (n - 1) as nat, at, block);
        assert(order[n - 1] != at);
    }
}

/// Marking the allocation `order[k]` as forwarded takes its blocks out of
/// the pending ones.
pub proof fn lemma_pending_mark(
    order: Seq<nat>,
    sizes: Map<nat, nat>,
    blocks: Seq<Block>,
    n: nat,
    k: int,
    to: usize,
)
    requires
        tiled(order, sizes, n),
        0 <= k < n <= order.len(),
        forall|i: int| 0 <= i < n ==> #[trigger] order[i] < blocks.len(),
        !(blocks[order[k] as int] is Forward),
    ensures
        pending(order, sizes, blocks.update(order[k] as int, Block::Forward(to)), n) + sizes[order[k]]
            == pending(order, sizes, blocks, n),
    decreases n,
{
    let marked = blocks.update(order[k] as int, Block::Forward(to));
    if k < n - 1 {
        lemma_pending_mark(order, sizes, blocks, (n - 1) as nat, k, to);
        lemma_tiled_order(order, sizes, n, k, n - 1);
    } else {
        assert forall|i: int| 0 <= i < n - 1 implies #[trigger] order[i] != order[k] && order[i]
            < blocks.len() by {
            lemma_tiled_order(order, sizes, n, i, k);
        }
        lemma_pending_frame(order, sizes, blocks, (n - 1) as nat, order[k] as int, Block::Forward(to));
    }
}

/// Forwarding markers that are only added to never add to the pending blocks.
pub proof fn lemma_pending_mono(
    order: Seq<nat>,
    sizes: Map<nat, nat>,
    before: Seq<Block>,
    after: Seq<Block>,
    n: nat,
)
    requires
        n <= order.len(),
        forall|i: int| 0 <= i < n ==> #[trigger] order[i] < before.len(),
        forall|i: int| 0 <= i < before.len() && (#[trigger] before[i]) is Forward ==> after[i] == before[i],
    ensures
        pending(order, sizes, after, n) <= pending(order, sizes, before, n),
    decreases n,
{
    if n > 0 {
        lemma_pending_mono(order, sizes, before, after, (n - 1) as nat);
        assert(order[n - 1] < before.len());
    }
}

/// A forwarding marker stays where it is, so what it says of a value stays too.
pub proof fn lemma_forward_stable(v: MValue, before: Seq<Block>, after: Seq<Block>)
    requires
        v.forward(before) is Some,
        forall|i: int| 0 <= i < before.len() && (#[trigger] before[i]) is Forward ==> after[i] == before[i],
        v matches MValue::String(s) ==> s.ptr < before.len(),
        v matches MValue::List(l) ==> l.ptr < before.len(),
    ensures
        v.forward(after) == v.forward(before),
{
    match v {
        MValue::String(s) => {
            if s.ptr != 0 {
                assert(before[s.ptr as int] is Forward);
            }
        },
        MValue::List(l) => {
            assert(before[l.ptr as int] is Forward);
        },
    }
}

/// A forwarding marker stays where it is, so what it says of a cell stays too.
pub proof fn lemma_forward_stable_cell(c: GCValue, before: Seq<Block>, after: Seq<Block>)
    requires
        c.forward(before) is Some,
        forall|i: int| 0 <= i < before.len() && (#[trigger] before[i]) is Forward ==> after[i] == before[i],
        c.cell matches GCValueEnum::MValue(MValue::String(s)) ==> s.ptr < before.len(),
        c.cell matches GCValueEnum::MValue(MValue::List(l)) ==> l.ptr < before.len(),
        c.cell matches GCValueEnum::Other(OtherGCValue::BoxMValue(b)) ==> b.ptr < before.len(),
    ensures
        c.forward(after) == c.forward(before),
{
    match c.cell {
        GCValueEnum::MValue(v) => {
            lemma_forward_stable(v, before, after);
        },
        GCValueEnum::Other(OtherGCValue::BoxMValue(b)) => {
            assert(before[b.ptr as int] is Forward);
        },
    }
}

impl GarbageCollector {
    /// From-space as it was when the running cycle began.
    pub open spec fn origin_heap(self) -> Heap {
        Heap { blocks: self.origin@, ..self.from_space@ }
    }

    /// The allocation at `q` of to-space is the copy of the one that was at
    /// `p` in from-space when the cycle began: the same bytes, or the same
    /// number of elements, where each element written so far is what the
    /// element in its place in from-space has been forwarded to.
    pub open spec fn copy_ok(self, p: nat, q: nat) -> bool {
        let o = self.origin_heap();
        let f = self.from_space@;
        let t = self.to_space@;
        &&& t.sizes.contains_key(q)
        &&& t.sizes[q] == f.sizes[p]
        &&& self.moved@.contains_key(q)
        &&& self.moved@[q] == p
        &&& match o.blocks[p as int] {
            Block::Bytes(_) => forall|k: int|
                0 <= k < f.sizes[p] ==> #[trigger] t.blocks[q + k] == o.blocks[p + k],
            Block::Len(n) => {
                &&& t.blocks[q as int] == Block::Len(n)
                &&& forall|i: int|
                    0 <= i < n ==> (#[trigger] t.elem(q, i) is Free || (t.elem(q, i) is Value
                        && o.elem(p, i)->Value_0.forward(f.blocks) == Some(t.elem(q, i)->Value_0)))
            },
            Block::Value(v) => t.blocks[q as int] is Free || (t.blocks[q as int] is Value
                && v.forward(f.blocks) == Some(t.blocks[q as int]->Value_0)),
            _ => false,
        }
    }

    /// Invariant of a collector while a cycle runs.
    ///
    /// From-space differs from what it was at the start of the cycle only by
    /// forwarding markers at the heads of allocations that the roots reach;
    /// each marker leads to the copy of that allocation in to-space, and
    /// to-space holds nothing but these copies; and to-space holds as many
    /// blocks as the copied allocations took, so that it never has to grow.
    pub open spec fn collecting(self) -> bool {
        let o = self.origin_heap();
        let f = self.from_space@;
        let t = self.to_space@;
        &&& f.inv()
        &&& o.well_formed()
        &&& o.full()
        &&& t.well_formed()
        &&& self.origin@.len() == f.blocks.len()
        &&& forall|i: int|
            0 <= i < f.blocks.len() ==> (#[trigger] f.blocks[i]) == self.origin@[i] || (f.blocks[i] is Forward
                && f.sizes.contains_key(i as nat))
        &&& forall|p: nat| #[trigger]
            f.sizes.contains_key(p) && f.blocks[p as int] is Forward ==> self.copy_ok(
                p,
                f.blocks[p as int]->Forward_0 as nat,
            )
        &&& forall|q: nat| #[trigger] self.moved@.contains_key(q) ==> t.sizes.contains_key(q)
        &&& forall|q: nat| #[trigger]
            t.sizes.contains_key(q) ==> self.moved@.contains_key(q) && f.sizes.contains_key(self.moved@[q])
                && q <= usize::MAX && f.blocks[self.moved@[q] as int] == Block::Forward(q as usize)
        &&& o.closed_under(self.reached@)
        &&& forall|p: nat| #[trigger]
            f.sizes.contains_key(p) && f.blocks[p as int] is Forward ==> self.reached@.contains(p)
        &&& t.len + pending(f.order, f.sizes, f.blocks, f.order.len()) == f.len
        &&& f.len <= t.capacity()
    }

    /// `self` results from `old` by steps of a copy: markers were added to
    /// from-space, none was changed, and to-space was added to, without growing.
    pub open spec fn stepped(self, old: GarbageCollector) -> bool {
        &&& self.origin@ == old.origin@
        &&& self.reached@ == old.reached@
        &&& self.from_space@.len == old.from_space@.len
        &&& self.from_space@.sizes == old.from_space@.sizes
        &&& self.from_space@.order == old.from_space@.order
        &&& self.from_space@.blocks.len() == old.from_space@.blocks.len()
        &&& forall|i: int|
            0 <= i < old.from_space@.blocks.len() && (#[trigger] old.from_space@.blocks[i]) is Forward
                ==> self.from_space@.blocks[i] == old.from_space@.blocks[i]
        &&& self.to_space@.extends(old.to_space@)
        &&& self.to_space@.capacity() == old.to_space@.capacity()
    }

    /// `self` results from `old` by steps of a copy that left every
    /// allocation added to to-space fully written.
    pub open spec fn advanced(self, old: GarbageCollector) -> bool {
        &&& self.stepped(old)
        &&& self.to_space@.full_from(old.to_space@.len)
    }

    /// Both stores and the record of the copies are the same in `self` and `other`.
    pub open spec fn same_state(self, other: GarbageCollector) -> bool {
        &&& self.from_space@ == other.from_space@
        &&& self.to_space@ == other.to_space@
        &&& self.origin@ == other.origin@
        &&& self.moved@ == other.moved@
        &&& self.reached@ == other.reached@
    }

    /// Number of blocks of from-space that no copy has been made of yet.
    pub open spec fn pending_blocks(self) -> nat {
        let f = self.from_space@;
        pending(f.order, f.sizes, f.blocks, f.order.len())
    }

    /// What the fresh allocation at `q` of to-space holds when the object at
    /// `p` has just been given its forwarding marker: the bytes of a string,
    /// or the header of an array whose elements are still to be written.
    pub open spec fn fresh_copy(self, p: nat, q: nat) -> bool {
        let o = self.origin_heap();
        let t = self.to_space@;
        match o.blocks[p as int] {
            Block::Bytes(_) => forall|k: int| 0 <= k < o.sizes[p] ==> #[trigger] t.blocks[q + k] == o.blocks[p + k],
            Block::Len(n) => {
                &&& t.blocks[q as int] == Block::Len(n)
                &&& forall|i: int| 0 <= i < n ==> #[trigger] t.elem(q, i) is Free
            },
            Block::Value(_) => t.blocks[q as int] is Free,
            _ => true,
        }
    }
}

impl Heap {
    /// What the allocations of `set` hold designates allocations of `set`.
    pub open spec fn closed_under(self, set: Set<nat>) -> bool {
        forall|p: nat| #[trigger]
            set.contains(p) && self.sizes.contains_key(p) ==> match self.blocks[p as int] {
                Block::Len(n) => forall|i: int|
                    0 <= i < n ==> ((#[trigger] self.elem(p, i))->Value_0.target() matches Some(p2)
                        ==> set.contains(p2)),
                Block::Value(v) => v.target() matches Some(p2) ==> set.contains(p2),
                _ => true,
            }
    }

    /// A block written inside an allocation lies in no other allocation.
    pub proof fn lemma_inside(self, q: nat, at: int, p: nat, k: int)
        requires
            self.inv(),
            self.sizes.contains_key(q),
            self.sizes.contains_key(p),
            q <= at < q + self.sizes[q],
            0 <= k < self.sizes[p],
            p != q,
        ensures
            p + k != at,
    {
        if p < q {
            self.lemma_disjoint(p, q);
        } else {
            self.lemma_disjoint(q, p);
        }
    }

    /// Writing an element of an array keeps every live value live.
    pub proof fn lemma_write_keeps_live(self, old: Heap, q: nat, at: int, block: Block, v: MValue)
        requires
            old.inv(),
            old.sizes.contains_key(q),
            q <= at < q + old.sizes[q],
            at == q ==> old.blocks[at] is Free,
            at != q ==> old.blocks[q as int] is Len,
            self == (Heap { blocks: old.blocks.update(at, block), ..old }),
            v.live_in(old),
        ensures
            v.live_in(self),
            v matches MValue::String(s) ==> s.bytes_in(self) == s.bytes_in(old),
    {
        match v {
            MValue::String(s) => {
                if !s.is_inline() {
                    let p = s.ptr as nat;
                    assert(old.blocks[p + 0int] is Bytes);
                    assert forall|k: int| 0 <= k < old.sizes[p] implies #[trigger] self.blocks[p + k]
                        == old.blocks[p + k] by {
                        old.lemma_inside(q, at, p, k);
                    }
                }
            },
            MValue::List(l) => {
                let p = l.ptr as nat;
                if p != q {
                    old.lemma_inside(q, at, p, 0);
                }
            },
        }
        self.lemma_live_frame(old, v);
    }

    /// Writing inside one allocation leaves every other allocation as it
    /// is, and well typed.
    pub proof fn lemma_write_keeps_obj(self, old: Heap, q: nat, at: int, block: Block, p: nat)
        requires
            old.well_formed(),
            old.sizes.contains_key(q),
            q <= at < q + old.sizes[q],
            at == q ==> old.blocks[at] is Free,
            at != q ==> old.blocks[q as int] is Len,
            self == (Heap { blocks: old.blocks.update(at, block), ..old }),
            old.sizes.contains_key(p),
            p != q,
        ensures
            self.same_obj(old, p),
            self.obj_ok(p),
            old.obj_full(p) ==> self.obj_full(p),
    {
        assert forall|k: int| 0 <= k < old.sizes[p] implies #[trigger] self.blocks[p + k] == old.blocks[p
            + k] by {
            old.lemma_inside(q, at, p, k);
        }
        assert(self.blocks[p + 0int] == old.blocks[p + 0int]);
        assert(old.obj_ok(p));
        match old.blocks[p as int] {
            Block::Len(n) => {
                assert forall|i: int| 0 <= i < n implies (#[trigger] self.elem(p, i) is Free || (self.elem(
                    p,
                    i,
                ) is Value && self.elem(p, i)->Value_0.live_in(self))) by {
                    assert(self.blocks[p + (1 + VALUE_BLOCKS * i)] == old.blocks[p + (1 + VALUE_BLOCKS * i)]);
                    assert(self.elem(p, i) == old.elem(p, i));
                    if old.elem(p, i) is Value {
                        self.lemma_write_keeps_live(old, q, at, block, old.elem(p, i)->Value_0);
                    }
                }
                assert forall|i: int| 0 <= i < n && old.obj_full(p) implies #[trigger] self.elem(p, i) is Value by {
                    assert(self.blocks[p + (1 + VALUE_BLOCKS * i)] == old.blocks[p + (1 + VALUE_BLOCKS * i)]);
                    assert(self.elem(p, i) == old.elem(p, i));
                }
            },
            Block::Value(v) => {
                self.lemma_write_keeps_live(old, q, at, block, v);
            },
            _ => {},
        }
    }
}

impl GarbageCollector {
    /// An allocation of from-space without forwarding marker is as it was
    /// when the cycle began, and to-space has room for a copy of it.
    pub proof fn lemma_intact(self, p: nat)
        requires
            self.collecting(),
            self.from_space@.sizes.contains_key(p),
            !(self.from_space@.blocks[p as int] is Forward),
        ensures
            self.from_space@.same_obj(self.origin_heap(), p),
            self.to_space@.len + self.from_space@.sizes[p] <= self.from_space@.len,
    {
        let f = self.from_space@;
        let o = self.origin_heap();
        assert forall|k: int| 0 <= k < o.sizes[p] implies #[trigger] f.blocks[p + k] == o.blocks[p + k] by {
            if f.blocks[p + k] != o.blocks[p + k] && k > 0 {
                f.lemma_disjoint(p, (p + k) as nat);
            }
        }
        assert(f.order.contains(p));
        let i = choose|i: int| 0 <= i < f.order.len() && f.order[i] == p;
        lemma_pending_ge(f.order, f.sizes, f.blocks, f.order.len(), i);
    }

    /// What a live value has been forwarded to is live in to-space and
    /// holds the same text.
    pub proof fn lemma_forward_live(self, v: MValue, w: MValue)
        requires
            self.collecting(),
            v.live_in(self.origin_heap()),
            v.forward(self.from_space@.blocks) == Some(w),
        ensures
            w.live_in(self.to_space@),
            v matches MValue::String(s) ==> w is String && w->String_0.bytes_in(self.to_space@) == s.bytes_in(
                self.origin_heap(),
            ),
            v is List ==> w is List,
    {
        let f = self.from_space@;
        let o = self.origin_heap();
        let t = self.to_space@;
        match v {
            MValue::String(s) => {
                if !s.is_inline() {
                    let p = s.ptr as nat;
                    let q = f.blocks[p as int]->Forward_0 as nat;
                    let n = blocks_for(s.len as nat);
                    assert(self.copy_ok(p, q));
                    assert(o.blocks[p + 0int] is Bytes);
                    assert forall|k: int| 0 <= k < n implies #[trigger] t.blocks[q + k] is Bytes by {
                        assert(t.blocks[q + k] == o.blocks[p + k]);
                    }
                    assert(t.bytes_at(q, s.len as nat) =~= o.bytes_at(p, s.len as nat));
                }
            },
            MValue::List(l) => {
                let p = l.ptr as nat;
                let q = f.blocks[p as int]->Forward_0 as nat;
                assert(self.copy_ok(p, q));
            },
        }
    }

    /// `advanced` is reflexive.
    pub proof fn lemma_advanced_refl(self)
        requires
            self.collecting(),
        ensures
            self.advanced(self),
    {
    }

    /// `advanced` is transitive.
    pub proof fn lemma_advanced_trans(self, mid: GarbageCollector, old: GarbageCollector)
        requires
            old.to_space@.len >= 1,
            mid.collecting(),
            self.collecting(),
            self.advanced(mid),
            mid.advanced(old),
        ensures
            self.advanced(old),
    {
        self.lemma_after_part(mid, old, (old.to_space@.len - 1) as nat);
    }
}

impl GarbageCollector {
    /// The copy at `q` of the object at `p` stays what it is when another
    /// object is given its forwarding marker and to-space is added to.
    proof fn lemma_copy_kept(self, old: GarbageCollector, p: nat, to: usize)
        requires
            old.collecting(),
            self.origin@ == old.origin@,
            self.from_space@.sizes == old.from_space@.sizes,
            self.from_space@.len == old.from_space@.len,
            self.from_space@.blocks.len() == old.from_space@.blocks.len(),
            forall|i: int|
                0 <= i < old.from_space@.blocks.len() && (#[trigger] old.from_space@.blocks[i]) is Forward
                    ==> self.from_space@.blocks[i] == old.from_space@.blocks[i],
            self.to_space@.extends(old.to_space@),
            old.moved@.submap_of(self.moved@),
            old.from_space@.sizes.contains_key(p),
            old.from_space@.blocks[p as int] == Block::Forward(to),
        ensures
            self.copy_ok(p, to as nat),
    {
        let o = old.origin_heap();
        let f0 = old.from_space@;
        let t0 = old.to_space@;
        let t1 = self.to_space@;
        let q = to as nat;
        assert(old.copy_ok(p, q));
        assert(t0.sizes.dom().contains(q));
        assert(old.moved@.dom().contains(q));
        assert(o.obj_ok(p));
        assert(q + t0.sizes[q] <= t0.len);
        match o.blocks[p as int] {
            Block::Bytes(_) => {
                assert forall|k: int| 0 <= k < f0.sizes[p] implies #[trigger] t1.blocks[q + k] == o.blocks[p
                    + k] by {
                    assert(t0.blocks[q + k] == o.blocks[p + k]);
                    assert(t1.blocks[q + k] == t0.blocks[q + k]);
                }
            },
            Block::Len(n) => {
                assert forall|i: int| 0 <= i < n implies (#[trigger] t1.elem(q, i) is Free || (t1.elem(
                    q,
                    i,
                ) is Value && o.elem(p, i)->Value_0.forward(self.from_space@.blocks) == Some(
                    t1.elem(q, i)->Value_0,
                ))) by {
                    assert(t1.elem(q, i) == t0.elem(q, i));
                    if t0.elem(q, i) is Value {
                        let x = o.elem(p, i)->Value_0;
                        assert(o.elem(p, i) is Value);
                        assert(x.live_in(o));
                        lemma_forward_stable(x, f0.blocks, self.from_space@.blocks);
                    }
                }
            },
            Block::Value(v) => {
                if t0.blocks[q as int] is Value {
                    lemma_forward_stable(v, f0.blocks, self.from_space@.blocks);
                }
            },
            _ => {},
        }
        assert(t1.sizes.contains_key(q));
        assert(t1.sizes[q] == self.from_space@.sizes[p]);
        assert(self.moved@.contains_key(q));
        assert(self.moved@[q] == p);
        assert(self.origin_heap().blocks == o.blocks);
    }

    /// Giving the object at `p` its forwarding marker, once a fresh copy of
    /// it has been allocated at `to` in to-space, keeps the invariant of the
    /// cycle.
    pub proof fn lemma_mark(self, old: GarbageCollector, p: nat, to: usize)
        requires
            old.collecting(),
            old.from_space@.sizes.contains_key(p),
            !(old.from_space@.blocks[p as int] is Forward),
            self.origin@ == old.origin@,
            self.from_space@ == (Heap {
                blocks: old.from_space@.blocks.update(p as int, Block::Forward(to)),
                ..old.from_space@
            }),
            to == old.to_space@.len,
            self.to_space@.inv(),
            self.to_space@.claimed(old.to_space@, old.from_space@.sizes[p]),
            self.moved@ == old.moved@.insert(to as nat, p),
            self.reached@ == old.reached@,
            old.reached@.contains(p),
            self.fresh_copy(p, to as nat),
        ensures
            self.collecting(),
            self.stepped(old),
            self.copy_ok(p, to as nat),
    {
        let o = old.origin_heap();
        let f0 = old.from_space@;
        let f1 = self.from_space@;
        let t0 = old.to_space@;
        let t1 = self.to_space@;
        let q = to as nat;
        let size = f0.sizes[p];
        old.lemma_intact(p);
        t1.lemma_claimed_extends(t0, size);
        assert(o.obj_ok(p) && o.obj_full(p));
        assert(t1.blocks[q + 0int] == t1.blocks[q as int]);
        assert(t1.obj_ok(q));
        t1.lemma_extends_well_formed(t0);
        assert(self.origin_heap() == o);
        // the markers lead to copies
        assert(self.copy_ok(p, q));
        assert forall|p2: nat| #[trigger]
            f1.sizes.contains_key(p2) && f1.blocks[p2 as int] is Forward implies self.copy_ok(
            p2,
            f1.blocks[p2 as int]->Forward_0 as nat,
        ) by {
            if p2 != p {
                let to2 = f0.blocks[p2 as int]->Forward_0;
                assert(old.copy_ok(p2, to2 as nat));
                assert forall|k: nat| old.moved@.dom().contains(k) implies #[trigger] self.moved@.dom().contains(k)
                    && old.moved@[k] == self.moved@[k] by {
                    assert(old.moved@.contains_key(k));
                    assert(t0.sizes.contains_key(k));
                }
                self.lemma_copy_kept(old, p2, to2);
            }
        }
        // the blocks of the object are no longer pending
        assert(f1.order.contains(p));
        let i = choose|i: int| 0 <= i < f1.order.len() && f1.order[i] == p;
        assert forall|j: int| 0 <= j < f0.order.len() implies #[trigger] f0.order[j] < f0.blocks.len() by {
            assert(f0.order.contains(f0.order[j]));
            assert(f0.sizes.contains_key(f0.order[j]));
        }
        lemma_pending_mark(f0.order, f0.sizes, f0.blocks, f0.order.len(), i, to);
    }
}

impl GarbageCollector {
    /// The copy at `to` of the object at `p` stays what it is when a block
    /// is written inside another allocation of to-space.
    proof fn lemma_copy_apart(self, old: GarbageCollector, q: nat, at: int, block: Block, p: nat, to: usize)
        requires
            old.collecting(),
            self.origin@ == old.origin@,
            self.from_space@ == old.from_space@,
            self.moved@ == old.moved@,
            self.reached@ == old.reached@,
            old.to_space@.sizes.contains_key(q),
            q <= at < q + old.to_space@.sizes[q],
            at == q ==> old.to_space@.blocks[at] is Free,
            at != q ==> old.to_space@.blocks[q as int] is Len,
            self.to_space@ == (Heap { blocks: old.to_space@.blocks.update(at, block), ..old.to_space@ }),
            old.from_space@.sizes.contains_key(p),
            old.from_space@.blocks[p as int] == Block::Forward(to),
            to != q,
        ensures
            self.copy_ok(p, to as nat),
    {
        let o = old.origin_heap();
        let t0 = old.to_space@;
        let t1 = self.to_space@;
        let q2 = to as nat;
        assert(old.copy_ok(p, q2));
        assert(o.obj_ok(p));
        t1.lemma_write_keeps_obj(t0, q, at, block, q2);
        match o.blocks[p as int] {
            Block::Bytes(_) => {
                assert forall|k: int| 0 <= k < o.sizes[p] implies #[trigger] t1.blocks[q2 + k] == o.blocks[p
                    + k] by {
                    assert(t0.blocks[q2 + k] == o.blocks[p + k]);
                    assert(t1.blocks[q2 + k] == t0.blocks[q2 + k]);
                }
            },
            Block::Len(n) => {
                assert(t1.blocks[q2 + 0int] == t0.blocks[q2 + 0int]);
                assert forall|i: int| 0 <= i < n implies (#[trigger] t1.elem(q2, i) is Free || (t1.elem(
                    q2,
                    i,
                ) is Value && o.elem(p, i)->Value_0.forward(self.from_space@.blocks) == Some(
                    t1.elem(q2, i)->Value_0,
                ))) by {
                    assert(t1.blocks[q2 + (1 + VALUE_BLOCKS * i)] == t0.blocks[q2 + (1 + VALUE_BLOCKS * i)]);
                    assert(t1.elem(q2, i) == t0.elem(q2, i));
                }
            },
            Block::Value(v) => {
                assert(t1.blocks[q2 + 0int] == t0.blocks[q2 + 0int]);
            },
            _ => {},
        }
    }

    /// Writing to element `i` of the copy of an array what element `i` of
    /// the array has been forwarded to keeps the invariant of the cycle.
    pub proof fn lemma_fill_elem(self, old: GarbageCollector, p: nat, to: usize, i: int, w: MValue)
        requires
            old.collecting(),
            old.from_space@.sizes.contains_key(p),
            old.from_space@.blocks[p as int] == Block::Forward(to),
            old.origin_heap().blocks[p as int] is Len,
            0 <= i < old.origin_heap().blocks[p as int]->Len_0,
            old.origin_heap().elem(p, i)->Value_0.forward(old.from_space@.blocks) == Some(w),
            old.to_space@.elem(to as nat, i) is Free,
            self.origin@ == old.origin@,
            self.from_space@ == old.from_space@,
            self.moved@ == old.moved@,
            self.reached@ == old.reached@,
            self.to_space@ == (Heap {
                blocks: old.to_space@.blocks.update(elem_at(to as nat, i), Block::Value(w)),
                ..old.to_space@
            }),
        ensures
            self.collecting(),
            forall|q2: nat| #[trigger]
                old.to_space@.sizes.contains_key(q2) && q2 != to && old.to_space@.obj_full(q2)
                    ==> self.to_space@.obj_full(q2),
    {
        let o = old.origin_heap();
        let f = old.from_space@;
        let t0 = old.to_space@;
        let t1 = self.to_space@;
        let q = to as nat;
        let at = elem_at(q, i);
        let n = o.blocks[p as int]->Len_0;
        let block = Block::Value(w);
        assert(old.copy_ok(p, q));
        assert(o.obj_ok(p) && o.obj_full(p));
        assert(o.elem(p, i) is Value);
        old.lemma_forward_live(o.elem(p, i)->Value_0, w);
        t1.lemma_write_keeps_live(t0, q, at, block, w);
        assert forall|q2: nat| #[trigger] t1.sizes.contains_key(q2) implies t1.obj_ok(q2) by {
            if q2 == q {
                assert(t0.obj_ok(q));
                assert forall|j: int| 0 <= j < n implies (#[trigger] t1.elem(q, j) is Free || (t1.elem(
                    q,
                    j,
                ) is Value && t1.elem(q, j)->Value_0.live_in(t1))) by {
                    if j != i {
                        assert(t1.elem(q, j) == t0.elem(q, j));
                        if t0.elem(q, j) is Value {
                            t1.lemma_write_keeps_live(t0, q, at, block, t0.elem(q, j)->Value_0);
                        }
                    }
                }
            } else {
                t1.lemma_write_keeps_obj(t0, q, at, block, q2);
            }
        }
        assert forall|q2: nat| #[trigger]
            t0.sizes.contains_key(q2) && q2 != to && t0.obj_full(q2) implies t1.obj_full(q2) by {
            t1.lemma_write_keeps_obj(t0, q, at, block, q2);
        }
        assert forall|p2: nat| #[trigger]
            f.sizes.contains_key(p2) && f.blocks[p2 as int] is Forward implies self.copy_ok(
            p2,
            f.blocks[p2 as int]->Forward_0 as nat,
        ) by {
            let to2 = f.blocks[p2 as int]->Forward_0;
            assert(old.copy_ok(p2, to2 as nat));
            if to2 == to {
                assert(p2 == p);
                assert forall|j: int| 0 <= j < n implies (#[trigger] t1.elem(q, j) is Free || (t1.elem(
                    q,
                    j,
                ) is Value && o.elem(p, j)->Value_0.forward(f.blocks) == Some(t1.elem(q, j)->Value_0))) by {
                    if j != i {
                        assert(t1.elem(q, j) == t0.elem(q, j));
                    }
                }
            } else {
                self.lemma_copy_apart(old, q, at, block, p2, to2);
            }
        }
    }

    /// Writing to the copy of a boxed cell what the content of the cell has
    /// been forwarded to keeps the invariant of the cycle.
    pub proof fn lemma_fill_box(self, old: GarbageCollector, p: nat, to: usize, w: MValue)
        requires
            old.collecting(),
            old.from_space@.sizes.contains_key(p),
            old.from_space@.blocks[p as int] == Block::Forward(to),
            old.origin_heap().blocks[p as int] is Value,
            old.origin_heap().blocks[p as int]->Value_0.forward(old.from_space@.blocks) == Some(w),
            old.to_space@.blocks[to as int] is Free,
            self.origin@ == old.origin@,
            self.from_space@ == old.from_space@,
            self.moved@ == old.moved@,
            self.reached@ == old.reached@,
            self.to_space@ == (Heap {
                blocks: old.to_space@.blocks.update(to as int, Block::Value(w)),
                ..old.to_space@
            }),
        ensures
            self.collecting(),
            forall|q2: nat| #[trigger]
                old.to_space@.sizes.contains_key(q2) && q2 != to && old.to_space@.obj_full(q2)
                    ==> self.to_space@.obj_full(q2),
    {
        let o = old.origin_heap();
        let f = old.from_space@;
        let t0 = old.to_space@;
        let t1 = self.to_space@;
        let q = to as nat;
        let at = to as int;
        let block = Block::Value(w);
        assert(old.copy_ok(p, q));
        assert(o.obj_ok(p));
        old.lemma_forward_live(o.blocks[p as int]->Value_0, w);
        t1.lemma_write_keeps_live(t0, q, at, block, w);
        assert forall|q2: nat| #[trigger] t1.sizes.contains_key(q2) implies t1.obj_ok(q2) by {
            if q2 != q {
                t1.lemma_write_keeps_obj(t0, q, at, block, q2);
            }
        }
        assert forall|q2: nat| #[trigger]
            t0.sizes.contains_key(q2) && q2 != to && t0.obj_full(q2) implies t1.obj_full(q2) by {
            t1.lemma_write_keeps_obj(t0, q, at, block, q2);
        }
        assert forall|p2: nat| #[trigger]
            f.sizes.contains_key(p2) && f.blocks[p2 as int] is Forward implies self.copy_ok(
            p2,
            f.blocks[p2 as int]->Forward_0 as nat,
        ) by {
            let to2 = f.blocks[p2 as int]->Forward_0;
            assert(old.copy_ok(p2, to2 as nat));
            if to2 == to {
                assert(p2 == p);
            } else {
                self.lemma_copy_apart(old, q, at, block, p2, to2);
            }
        }
    }
}

impl GarbageCollector {
    /// What holds after the copy of a part of an object, while the copy of
    /// the object itself, at `q` in to-space, is still being written: the
    /// steps add up, the allocations after `q` are fully written, and no
    /// block has become pending.
    pub proof fn lemma_after_part(self, before: GarbageCollector, old: GarbageCollector, q: nat)
        requires
            before.collecting(),
            before.stepped(old),
            before.to_space@.full_from(q + 1),
            q < before.to_space@.len,
            self.collecting(),
            self.advanced(before),
        ensures
            self.stepped(old),
            self.to_space@.full_from(q + 1),
            self.pending_blocks() <= before.pending_blocks(),
    {
        let t2 = self.to_space@;
        let t1 = before.to_space@;
        let t0 = old.to_space@;
        let f = before.from_space@;
        assert(t1.extends(t0));
        assert(t2.extends(t1));
        assert forall|k: nat| t0.sizes.dom().contains(k) implies #[trigger] t2.sizes.dom().contains(k)
            && t0.sizes[k] == t2.sizes[k] by {
            assert(t1.sizes.dom().contains(k));
            assert(t2.sizes.dom().contains(k));
            assert(t1.sizes[k] == t0.sizes[k]);
            assert(t1.sizes[k] == t2.sizes[k]);
        }
        assert forall|p: nat| #[trigger] t2.sizes.contains_key(p) && p >= q + 1 implies t2.obj_full(p) by {
            if p < t1.len {
                assert(t1.sizes.contains_key(p));
                t2.lemma_extends_obj(t1, p);
            }
        }
        assert forall|j: int| 0 <= j < f.order.len() implies #[trigger] f.order[j] < f.blocks.len() by {
            assert(f.order.contains(f.order[j]));
            assert(f.sizes.contains_key(f.order[j]));
        }
        lemma_pending_mono(f.order, f.sizes, f.blocks, self.from_space@.blocks, f.order.len());
    }

    /// A block of from-space that heads no allocation is as it was when the
    /// cycle began.
    pub proof fn lemma_part_intact(self, p: nat, k: int)
        requires
            self.collecting(),
            self.from_space@.sizes.contains_key(p),
            0 < k < self.from_space@.sizes[p],
        ensures
            self.from_space@.blocks[p + k] == self.origin@[p + k],
    {
        let f = self.from_space@;
        if f.blocks[p + k] != self.origin@[p + k] {
            f.lemma_disjoint(p, (p + k) as nat);
        }
    }
}

impl GarbageCollector {
    /// A cell that was live when the cycle began keeps what a marker says
    /// of it through further steps of the copy.
    pub proof fn lemma_forward_kept(self, old: GarbageCollector, c: GCValue)
        requires
            old.collecting(),
            self.stepped(old),
            c.live_in(old.origin_heap()),
            c.forward(old.from_space@.blocks) is Some,
        ensures
            c.forward(self.from_space@.blocks) == c.forward(old.from_space@.blocks),
    {
        lemma_forward_stable_cell(c, old.from_space@.blocks, self.from_space@.blocks);
    }

    /// A collector between two cycles is ready to start one, once the
    /// blocks of from-space have been recorded.
    pub proof fn lemma_begin(self, old: GarbageCollector)
        requires
            old.wf(),
            self.from_space@ == old.from_space@,
            self.to_space@ == old.to_space@,
            self.origin@ == old.from_space@.blocks,
            self.moved@ == Map::<nat, nat>::empty(),
            old.heap().closed_under(self.reached@),
        ensures
            self.collecting(),
            self.origin_heap() == old.heap(),
            self.pending_blocks() + 1 == old.heap().len,
    {
        let f = self.from_space@;
        assert(self.origin_heap() == f);
        assert forall|p: nat| #[trigger] f.sizes.contains_key(p) implies !(f.blocks[p as int] is Forward) by {
            assert(f.obj_ok(p));
        }
        assert forall|i: int| 0 <= i < f.order.len() implies !(#[trigger] f.blocks[f.order[i] as int] is Forward) by {
            assert(f.order.contains(f.order[i]));
            assert(f.sizes.contains_key(f.order[i]));
        }
        lemma_pending_total(f.order, f.sizes, f.blocks, f.order.len());
    }
}

} // verus!
