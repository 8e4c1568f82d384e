use vstd::prelude::*;
use crate::eval::MValue;
use crate::gc::collection::gcvalue::GCValue;
use crate::gc::gcspace::{max_blocks, Block, GCPtr, GCSpace, Heap};
use crate::gc::GarbageCollector;
use crate::util::ivec::len_limit;
use crate::util::IVec;

pub mod gcvalue;

verus! {

/// A frame of roots: the values of one scope that have to survive a
/// collection, and the frame of the enclosing scope.
pub struct GCRoot {
    prev: Option<Box<GCRoot>>,
    data: IVec<1, GCValue>,
}

impl GCRoot {
    /// The values of the chain of frames, frame by frame, from the innermost
    /// frame outwards.
    pub closed spec fn frames(&self) -> Seq<Seq<GCValue>>
        decreases self,
    {
        match self.prev {
            None => seq![self.data@],
            Some(prev) => seq![self.data@] + prev.frames(),
        }
    }

    /// Number of frames of the chain.
    pub closed spec fn depth(&self) -> nat
        decreases self,
    {
        match self.prev {
            None => 1,
            Some(prev) => 1 + prev.depth(),
        }
    }

    /// Every frame of the chain is well formed.
    pub closed spec fn wf(&self) -> bool
        decreases self,
    {
        &&& self.data.wf()
        &&& match self.prev {
            None => true,
            Some(prev) => prev.wf(),
        }
    }

    /// Every value of every frame is live in `h`.
    pub open spec fn live_in(&self, h: Heap) -> bool {
        forall|f: int, i: int|
            0 <= f < self.frames().len() && 0 <= i < self.frames()[f].len() ==> (
            #[trigger] self.frames()[f][i]).live_in(h)
    }

    /// A value of a frame of the chain reaches the allocation at `p` of `h`.
    pub open spec fn reaches(&self, h: Heap, p: nat) -> bool {
        exists|f: int, i: int, depth: nat|
            0 <= f < self.frames().len() && 0 <= i < self.frames()[f].len() && #[trigger] h.cell_reaches(
                self.frames()[f][i],
                p,
                depth,
            )
    }

    /// The allocations of `h` that the values of the chain reach.
    pub open spec fn reached(&self, h: Heap) -> Set<nat> {
        Set::new(|p: nat| self.reaches(h, p))
    }

    /// What an allocation that the chain reaches holds is reached, too.
    pub proof fn lemma_reached_closed(&self, h: Heap)
        requires
            h.well_formed(),
            h.full(),
            self.live_in(h),
        ensures
            h.closed_under(self.reached(h)),
    {
        let set = self.reached(h);
        assert forall|p: nat| #[trigger] set.contains(p) && h.sizes.contains_key(p) implies match h.blocks[p as int] {
            Block::Len(n) => forall|i: int|
                0 <= i < n ==> ((#[trigger] h.elem(p, i))->Value_0.target() matches Some(p2) ==> set.contains(
                    p2,
                )),
            Block::Value(v) => v.target() matches Some(p2) ==> set.contains(p2),
            _ => true,
        } by {
            let (f, i, depth) = choose|f: int, i: int, depth: nat|
                0 <= f < self.frames().len() && 0 <= i < self.frames()[f].len() && #[trigger] h.cell_reaches(
                    self.frames()[f][i],
                    p,
                    depth,
                );
            let c = self.frames()[f][i];
            match h.blocks[p as int] {
                Block::Len(n) => {
                    assert forall|k: int| 0 <= k < n implies ((#[trigger] h.elem(p, k))->Value_0.target() matches Some(
                        p2,
                    ) ==> set.contains(p2)) by {
                        if let Some(p2) = h.elem(p, k)->Value_0.target() {
                            h.lemma_cell_reaches_step(c, p, depth, p2);
                            assert(h.cell_reaches(self.frames()[f][i], p2, depth + 1));
                        }
                    }
                },
                Block::Value(v) => {
                    if let Some(p2) = v.target() {
                        h.lemma_cell_reaches_step(c, p, depth, p2);
                        assert(h.cell_reaches(self.frames()[f][i], p2, depth + 1));
                    }
                },
                _ => {},
            }
        }
    }

    /// A chain has as many frames as it is deep, and at least one.
    pub proof fn lemma_depth(&self)
        ensures
            self.frames().len() == self.depth() >= 1,
        decreases self,
    {
        match self.prev {
            None => {},
            Some(prev) => {
                prev.lemma_depth();
            },
        }
    }

    /// Creates an outermost frame, without values.
    pub fn new_empty() -> (r: Self)
        ensures
            r.wf(),
            r.frames() == seq![Seq::<GCValue>::empty()],
    {
        GCRoot { prev: None, data: IVec::new() }
    }

    /// Opens a nested scope: creates an empty frame inside this one.
    pub fn new(self) -> (r: Self)
        requires
            self.wf(),
        ensures
            r.wf(),
            r.frames() == seq![Seq::<GCValue>::empty()] + self.frames(),
    {
        GCRoot { prev: Some(Box::new(self)), data: IVec::new() }
    }

    /// Closes the innermost scope: gives back the enclosing frame, or
    /// `None` if this is the outermost frame.
    pub fn parent(self) -> (r: Option<Self>)
        requires
            self.wf(),
        ensures
            r is Some <==> self.frames().len() > 1,
            r matches Some(p) ==> p.wf() && p.frames() == self.frames().drop_first(),
    {
        proof {
            self.lemma_depth();
        }
        match self.prev {
            None => None,
            Some(prev) => {
                proof {
                    prev.lemma_depth();
                    assert((seq![self.data@] + prev.frames()).drop_first() =~= prev.frames());
                }
                Some(*prev)
            },
        }
    }

    /// The value at `idx` of the innermost frame.
    pub fn get(&self, idx: usize) -> (r: Option<GCValue>)
        ensures
            r == if idx < self.frames()[0].len() {
                Some(self.frames()[0][idx as int])
            } else {
                None
            },
    {
        match self.data.get(idx) {
            Some(v) => Some(*v),
            None => None,
        }
    }

    /// The value at `idx` of the innermost frame, if it is a language value.
    pub fn get_value(&self, idx: usize) -> (r: Option<MValue>)
        ensures
            r == if idx < self.frames()[0].len() {
                self.frames()[0][idx as int].mvalue()
            } else {
                None
            },
    {
        match self.get(idx) {
            Some(v) => v.as_mvalue(),
            None => None,
        }
    }

    /// Appends a value to the innermost frame.
    pub fn push(&mut self, value: GCValue)
        requires
            old(self).wf(),
            old(self).frames()[0].len() < len_limit(),
        ensures
            final(self).wf(),
            final(self).frames() == old(self).frames().update(0, old(self).frames()[0].push(value)),
    {
        self.data.push(value);
        proof {
            assert(self.frames() =~= old(self).frames().update(0, old(self).frames()[0].push(value)));
        }
    }

    /// The values of the innermost frame, as a slice that can be written to.
    pub fn as_mut_slice(&mut self) -> (s: &mut [GCValue])
        requires
            old(self).wf(),
        ensures
            s@ == old(self).frames()[0],
            final(self).frames() == old(self).frames().update(0, final(s)@),
            final(s)@.len() == s@.len() ==> final(self).wf(),
    {
        proof {
            assert forall|d: Seq<GCValue>|
                (match self.prev {
                    None => seq![d],
                    Some(prev) => seq![d] + prev.frames(),
                }) =~= #[trigger] old(self).frames().update(0, d) by {}
        }
        self.data.as_mut_slice()
    }
}

impl GCRoot {
    /// Copies every value of the chain of frames to to-space, and puts in
    /// its place the value that designates the copy.
    fn copy_values(&mut self, gc: &mut GarbageCollector)
        requires
            old(gc).collecting(),
            old(self).wf(),
            old(self).live_in(old(gc).origin_heap()),
            forall|f: int, i: int|
                0 <= f < old(self).frames().len() && 0 <= i < old(self).frames()[f].len() ==> ((
                #[trigger] old(self).frames()[f][i]).target() matches Some(p) ==> old(gc).reached@.contains(p)),
        ensures
            final(gc).collecting(),
            final(gc).advanced(*old(gc)),
            final(self).wf(),
            final(self).frames().len() == old(self).frames().len(),
            forall|f: int|
                0 <= f < old(self).frames().len() ==> (#[trigger] final(self).frames()[f]).len() == old(
                    self,
                ).frames()[f].len(),
            forall|f: int, i: int|
                0 <= f < old(self).frames().len() && 0 <= i < old(self).frames()[f].len() ==> old(
                    self,
                ).frames()[f][i].forward(final(gc).from_space@.blocks) == Some(
                    #[trigger] final(self).frames()[f][i],
                ),
        decreases old(self).depth(),
    {
        let n = self.data.len();
        let ghost entry = old(self).data@;
        proof {
            gc.lemma_advanced_refl();
            assert forall|j: int| 0 <= j < n implies (#[trigger] entry[j]).live_in(gc.origin_heap()) && (
            entry[j].target() matches Some(p) ==> gc.reached@.contains(p)) by {
                assert(old(self).frames()[0][j] == entry[j]);
            }
        }
        let mut i: usize = 0;
        while i < n
            invariant
                i <= n == entry.len(),
                gc.collecting(),
                gc.advanced(*old(gc)),
                old(gc).collecting(),
                self.data.wf(),
                self.data@.len() == n,
                self.prev == old(self).prev,
                forall|j: int|
                    0 <= j < n ==> (#[trigger] entry[j]).live_in(gc.origin_heap()) && (entry[j].target() matches Some(
                        p,
                    ) ==> gc.reached@.contains(p)),
                forall|j: int| 0 <= j < i ==> (#[trigger] entry[j]).forward(gc.from_space@.blocks) == Some(self.data@[j]),
                forall|j: int| i <= j < n ==> self.data@[j] == #[trigger] entry[j],
            decreases n - i,
        {
            if let Some(value) = self.data.get(i) {
                let value = *value;
                let ghost before = *gc;
                assert(value == entry[i as int]);
                let copy = value.gc_copy(gc);
                self.data.set(i, copy);
                proof {
                    gc.lemma_advanced_trans(before, *old(gc));
                    assert forall|j: int| 0 <= j < i + 1 implies (#[trigger] entry[j]).forward(
                        gc.from_space@.blocks,
                    ) == Some(self.data@[j]) by {
                        if j < i {
                            gc.lemma_forward_kept(before, entry[j]);
                        }
                    }
                }
            }
            i = i + 1;
        }
        let ghost copied = self.data@;
        let ghost mid = *gc;
        match &mut self.prev {
            None => {},
            Some(prev) => {
                proof {
                    assert forall|f: int, i: int|
                        0 <= f < prev.frames().len() && 0 <= i < prev.frames()[f].len() implies (
                    #[trigger] prev.frames()[f][i]).live_in(gc.origin_heap()) && (prev.frames()[f][i].target() matches Some(
                        p,
                    ) ==> gc.reached@.contains(p)) by {
                        assert(old(self).frames()[f + 1][i] == prev.frames()[f][i]);
                    }
                }
                prev.copy_values(gc);
            },
        }
        proof {
            if old(self).prev is Some {
                gc.lemma_advanced_trans(mid, *old(gc));
            }
            let before = old(self).frames();
            let after = self.frames();
            assert(after.len() == before.len());
            assert forall|f: int| 0 <= f < before.len() implies (#[trigger] after[f]).len() == before[f].len() by {
                if f > 0 {
                    assert(after[f] == self.prev->Some_0.frames()[f - 1]);
                    assert(before[f] == old(self).prev->Some_0.frames()[f - 1]);
                }
            }
            assert forall|f: int, i: int|
                0 <= f < before.len() && 0 <= i < before[f].len() implies before[f][i].forward(
                gc.from_space@.blocks,
            ) == Some(#[trigger] after[f][i]) by {
                if f > 0 {
                    assert(after[f] == self.prev->Some_0.frames()[f - 1]);
                    assert(before[f] == old(self).prev->Some_0.frames()[f - 1]);
                } else {
                    assert(before[0][i] == entry[i]);
                    assert(after[0][i] == copied[i]);
                    gc.lemma_forward_kept(mid, entry[i]);
                }
            }
        }
    }
}

/// Whether a store with `len` of `capacity` blocks occupied is full enough
/// for `collect` to start a cycle: at least 15/16 of it are occupied.
pub open spec fn nearly_full(len: nat, capacity: nat) -> bool {
    16 * len >= 15 * capacity
}

/// Capacity of the stores after a cycle that left `len` blocks occupied:
/// twice the capacity `capacity` that they had, if at least 12/16 of it are
/// still occupied and a store may be that large.
pub open spec fn capacity_after(len: nat, capacity: nat) -> nat {
    if 16 * len >= 12 * capacity && 2 * capacity <= max_blocks() {
        2 * capacity
    } else {
        capacity
    }
}

impl GarbageCollector {
    /// What a cycle makes of the collector `old` and of the roots
    /// `old_root`.
    ///
    /// The collector is between two cycles again. The chain of frames has
    /// the shape it had; every value in it is live, and is in the new heap
    /// what the value in its place was in the old heap, however deep one
    /// looks; values that were the same are the same. The live store
    /// occupies no more blocks than before, and the stores have grown as
    /// `capacity_after` says. The allocations of the new heap are the
    /// copies, one each and of the same size, of the allocations of the old
    /// heap that the roots reached: `moved` tells for each where it was.
    pub open spec fn collected(self, old: GarbageCollector, root: GCRoot, old_root: GCRoot) -> bool {
        &&& self.wf()
        &&& root.wf()
        &&& root.live_in(self.heap())
        &&& root.frames().len() == old_root.frames().len()
        &&& forall|f: int|
            0 <= f < old_root.frames().len() ==> (#[trigger] root.frames()[f]).len() == old_root.frames()[f].len()
        &&& forall|f: int, i: int, depth: nat|
            0 <= f < old_root.frames().len() && 0 <= i < old_root.frames()[f].len() ==> #[trigger] self.heap().observe_cell(
                root.frames()[f][i],
                depth,
            ) == old.heap().observe_cell(old_root.frames()[f][i], depth)
        &&& forall|f: int, i: int, g: int, j: int|
            0 <= f < old_root.frames().len() && 0 <= i < old_root.frames()[f].len() && 0 <= g
                < old_root.frames().len() && 0 <= j < old_root.frames()[g].len() && old_root.frames()[f][i]
                == old_root.frames()[g][j] ==> #[trigger] root.frames()[f][i] == #[trigger] root.frames()[g][j]
        &&& self.heap().len <= old.heap().len
        &&& self.spec_capacity() == capacity_after(self.heap().len, old.spec_capacity())
        &&& forall|q: nat| #[trigger]
            self.heap().sizes.contains_key(q) ==> self.moved@.contains_key(q) && old_root.reaches(
                old.heap(),
                self.moved@[q],
            ) && old.heap().sizes.contains_key(self.moved@[q]) && old.heap().sizes[self.moved@[q]]
                == self.heap().sizes[q]
        &&& forall|q: nat, r: nat|
            self.heap().sizes.contains_key(q) && self.heap().sizes.contains_key(r) && q != r
                ==> #[trigger] self.moved@[q] != #[trigger] self.moved@[r]
        &&& forall|p: nat|
            old_root.reaches(old.heap(), p) ==> exists|q: nat| #[trigger]
                self.heap().sizes.contains_key(q) && self.moved@[q] == p
    }

    /// Copies every value of the chain of frames `root` to to-space.
    fn copy_roots(&mut self, root: &mut GCRoot)
        requires
            old(self).collecting(),
            old(root).wf(),
            old(root).live_in(old(self).origin_heap()),
            forall|f: int, i: int|
                0 <= f < old(root).frames().len() && 0 <= i < old(root).frames()[f].len() ==> ((
                #[trigger] old(root).frames()[f][i]).target() matches Some(p) ==> old(self).reached@.contains(p)),
        ensures
            final(self).collecting(),
            final(self).advanced(*old(self)),
            final(root).wf(),
            final(root).frames().len() == old(root).frames().len(),
            forall|f: int|
                0 <= f < old(root).frames().len() ==> (#[trigger] final(root).frames()[f]).len() == old(
                    root,
                ).frames()[f].len(),
            forall|f: int, i: int|
                0 <= f < old(root).frames().len() && 0 <= i < old(root).frames()[f].len() ==> old(
                    root,
                ).frames()[f][i].forward(final(self).from_space@.blocks) == Some(
                    #[trigger] final(root).frames()[f][i],
                ),
    {
        root.copy_values(self);
    }

    /// Does a garbage collection cycle.
    ///
    /// All objects that the values in `root` reach are moved, and the values
    /// in `root` are replaced by values that designate the moved objects.
    /// Any other value becomes invalid, even if it designates an object that
    /// survives the cycle. All values in `root` must be live.
    pub fn force_collect(&mut self, root: &mut GCRoot)
        requires
            old(self).wf(),
            old(root).wf(),
            old(root).live_in(old(self).heap()),
        ensures
            final(self).collected(*old(self), *final(root), *old(root)),
    {
        self.origin = Ghost(self.from_space@.blocks);
        self.moved = Ghost(Map::empty());
        self.reached = Ghost(root.reached(self.from_space@));
        proof {
            root.lemma_reached_closed(self.heap());
            self.lemma_begin(*old(self));
            assert forall|f: int, i: int|
                0 <= f < root.frames().len() && 0 <= i < root.frames()[f].len() implies ((
            #[trigger] root.frames()[f][i]).target() matches Some(p) ==> self.reached@.contains(p)) by {
                if let Some(p) = root.frames()[f][i].target() {
                    assert(self.heap().cell_reaches(root.frames()[f][i], p, 1));
                }
            }
        }
        let ghost begun = *self;
        self.copy_roots(root);
        let ghost ended = *self;
        core::mem::swap(&mut self.from_space, &mut self.to_space);
        self.to_space.clear();
        // the stores grow if the live data still takes most of the room
        let len = self.from_space.len();
        let cap = self.from_space.capacity();
        if (len as u128) * 16 >= (cap as u128) * 12 && cap <= GCSpace::max_len() - cap {
            proof {
                reveal_with_fuel(crate::gc::gcspace::grown, 2);
            }
            self.from_space.expand(cap * 2);
            self.to_space.expand(cap * 2);
        }
        proof {
            let h = self.heap();
            let t = ended.to_space@;
            assert(h.extends(t));
            assert(t.full()) by {
                assert(t.full_from(1));
            }
            h.lemma_extends_well_formed(t);
            h.lemma_extends_full(t, 0);
            assert forall|f: int, i: int|
                0 <= f < old(root).frames().len() && 0 <= i < old(root).frames()[f].len() implies (
            #[trigger] root.frames()[f][i]).live_in(h) by {
                ended.lemma_observe_cell_copied(old(root).frames()[f][i], root.frames()[f][i], 0);
                h.lemma_extends_live_cell(t, root.frames()[f][i]);
            }
            assert forall|q: nat| #[trigger] h.sizes.contains_key(q) implies self.moved@.contains_key(q)
                && old(root).reaches(old(self).heap(), self.moved@[q]) && old(self).heap().sizes.contains_key(
                self.moved@[q],
            ) && old(self).heap().sizes[self.moved@[q]] == h.sizes[q] by {
                assert(t.sizes.contains_key(q));
                assert(ended.copy_ok(ended.moved@[q], q));
            }
            assert forall|q: nat, r: nat|
                h.sizes.contains_key(q) && h.sizes.contains_key(r) && q != r implies #[trigger] self.moved@[q]
                != #[trigger] self.moved@[r] by {
                assert(t.sizes.contains_key(q) && t.sizes.contains_key(r));
            }
            assert forall|p: nat| old(root).reaches(old(self).heap(), p) implies exists|q: nat| #[trigger]
                h.sizes.contains_key(q) && self.moved@[q] == p by {
                let (f, i, depth) = choose|f: int, i: int, depth: nat|
                    0 <= f < old(root).frames().len() && 0 <= i < old(root).frames()[f].len()
                        && #[trigger] old(self).heap().cell_reaches(old(root).frames()[f][i], p, depth);
                assert(old(root).frames()[f][i].forward(ended.from_space@.blocks) == Some(root.frames()[f][i]));
                ended.lemma_cell_reached_marked(old(root).frames()[f][i], p, depth);
                let q = ended.from_space@.blocks[p as int]->Forward_0 as nat;
                assert(ended.copy_ok(p, q));
                assert(h.sizes.contains_key(q) && self.moved@[q] == p);
            }
            assert forall|f: int, i: int, depth: nat|
                0 <= f < old(root).frames().len() && 0 <= i < old(root).frames()[f].len() implies #[trigger] h.observe_cell(
                root.frames()[f][i],
                depth,
            ) == old(self).heap().observe_cell(old(root).frames()[f][i], depth) by {
                ended.lemma_observe_cell_copied(old(root).frames()[f][i], root.frames()[f][i], depth);
                h.lemma_observe_cell_extends(t, root.frames()[f][i], depth);
            }
        }
    }

    /// Does a garbage collection cycle if at least 15/16 of the live store
    /// are occupied, and nothing otherwise.
    pub fn collect(&mut self, root: &mut GCRoot)
        requires
            old(self).wf(),
            old(root).wf(),
            old(root).live_in(old(self).heap()),
        ensures
            !nearly_full(old(self).heap().len, old(self).spec_capacity()) ==> *final(self) == *old(self)
                && *final(root) == *old(root),
            nearly_full(old(self).heap().len, old(self).spec_capacity()) ==> final(self).collected(
                *old(self),
                *final(root),
                *old(root),
            ),
    {
        let len = self.from_space.len();
        let cap = self.from_space.capacity();
        if (len as u128) * 16 < (cap as u128) * 15 {
            return ;
        }
        self.force_collect(root);
    }
}

} // verus!
