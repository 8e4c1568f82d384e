use vstd::prelude::*;
use crate::eval::MValue;
use crate::gc::collection::gcvalue::{GCValue, GCValueEnum, OtherGCValue};
use crate::gc::{blocks_for, GarbageCollector};
use crate::gc::primitives::vec::{elem_at, VALUE_BLOCKS};

verus! {

/// Capacity, in blocks, of a freshly created store.
pub const STARTING_BLOCKS: usize = 64;

/// One block of a store.
#[derive(Clone, Copy)]
pub enum Block {
    /// Never written since it was last claimed.
    Free,
    /// Eight bytes of string data.
    Bytes([u8; 8]),
    /// Header of a dynamic array: its element count.
    Len(usize),
    /// A value: an array element or the content of a boxed cell.
    Value(MValue),
    /// Forwarding marker, written over the head of a moved object: the block
    /// offset of the copy in the other store.
    Forward(usize),
}

/// The capability of every type whose values can lie in the heap: it says
/// whether a value keeps its leading bit free, and how to copy a value, with
/// all it owns, from from-space to to-space.
pub trait GCPtr: Sized + Copy {
    /// True if and only if the most significant bit of the first machine
    /// word of a value is always zero and a value is aligned like a pointer.
    const MSB_RESERVED: bool;

    /// Every object that the value designates is live in `h`.
    spec fn valid_in(self, h: Heap) -> bool;

    /// Offset of the allocation that the value designates, if it designates one.
    spec fn pointee(self) -> Option<nat>;

    /// What the value has been moved to, going by the forwarding markers in
    /// `blocks`; `None` if it designates an object without marker.
    spec fn forwarded(self, blocks: Seq<Block>) -> Option<Self>;

    /// Copies what the value designates from from-space to to-space, unless
    /// a forwarding marker shows that this has been done, and returns the
    /// value that designates the copy.
    fn gc_copy(self, gc: &mut GarbageCollector) -> (r: Self)
        requires
            old(gc).collecting(),
            self.valid_in(old(gc).origin_heap()),
            self.pointee() matches Some(p) ==> old(gc).reached@.contains(p),
        ensures
            final(gc).collecting(),
            final(gc).advanced(*old(gc)),
            self.forwarded(final(gc).from_space@.blocks) == Some(r),
            self.forwarded(old(gc).from_space@.blocks) is Some ==> final(gc).same_state(*old(gc)),
    ;
}

/// What `gc_copy` promises, as a relation: a copy of `v` that returns `r`
/// makes `new` of the collector `old`. The invariant of the cycle holds of
/// `new`; to-space has only been added to, by fully written objects; a
/// marker now leads from `v` to `r`; and nothing at all was done if a marker
/// led from `v` to some value before.
pub open spec fn copied<T: GCPtr>(v: T, old: GarbageCollector, new: GarbageCollector, r: T) -> bool {
    &&& new.collecting()
    &&& new.advanced(old)
    &&& v.forwarded(new.from_space@.blocks) == Some(r)
    &&& v.forwarded(old.from_space@.blocks) is Some ==> new.same_state(old)
}

/// A copy is idempotent: a second copy of the same value in the same cycle
/// returns what the first returned, and leaves the collector as it is.
pub proof fn lemma_copy_idempotent<T: GCPtr>(
    v: T,
    start: GarbageCollector,
    mid: GarbageCollector,
    end: GarbageCollector,
    first: T,
    second: T,
)
    requires
        copied(v, start, mid, first),
        copied(v, mid, end, second),
    ensures
        second == first,
        end.same_state(mid),
{
}

/// A pointer to an object of the heap, which a forwarding marker can replace.
pub trait GCObject: GCPtr {
    /// The value that designates the copy of the object, if the object
    /// carries a forwarding marker.
    fn get_forwarded_value(self, gc: &GarbageCollector) -> (r: Option<Self>)
        requires
            gc.collecting(),
            self.valid_in(gc.origin_heap()),
        ensures
            r == self.forwarded(gc.from_space@.blocks),
    ;
}

/// The mathematical content of a store.
pub struct Heap {
    /// All blocks of the store, occupied or not.
    pub blocks: Seq<Block>,
    /// Number of occupied blocks; block 0 is reserved and always counted.
    pub len: nat,
    /// The allocations: block offset of the head of each, with its size in blocks.
    pub sizes: Map<nat, nat>,
    /// The heads of the allocations in address order.
    pub order: Seq<nat>,
}

/// Offset one past the `n` first allocations of `order`.
pub open spec fn tiled_end(order: Seq<nat>, sizes: Map<nat, nat>, n: nat) -> nat {
    if n == 0 {
        1
    } else {
        order[n - 1] + sizes[order[n - 1]]
    }
}

/// The `n` first allocations of `order` lie one after another, from block 1 on.
pub open spec fn tiled(order: Seq<nat>, sizes: Map<nat, nat>, n: nat) -> bool
    decreases n,
{
    n == 0 || {
        &&& tiled(order, sizes, (n - 1) as nat)
        &&& order[n - 1] == tiled_end(order, sizes, (n - 1) as nat)
        &&& sizes.contains_key(order[n - 1])
        &&& sizes[order[n - 1]] >= 1
    }
}

/// Largest number of blocks that a store may occupy: a block offset keeps
/// its most significant bit free.
pub open spec fn max_blocks() -> nat {
    (usize::MAX / 2 + 1) as nat
}

/// Capacity reached from `cap` by doubling until it holds `n` blocks; it
/// never exceeds what a store may occupy.
pub open spec fn grown(cap: nat, n: nat) -> nat
    decreases
            (if n > cap {
                n - cap
            } else {
                0
            }),
{
    if cap >= n || cap == 0 {
        cap
    } else if 2 * cap >= max_blocks() {
        max_blocks()
    } else {
        grown(2 * cap, n)
    }
}

/// A store that has grown to hold `n` blocks holds at least `n` blocks, and
/// need not grow again for as many blocks as it then holds.
pub proof fn lemma_grown(cap: nat, n: nat)
    requires
        1 <= cap <= max_blocks(),
        n <= max_blocks(),
    ensures
        n <= grown(cap, n) <= max_blocks(),
        grown(cap, n) >= cap,
        grown(cap, grown(cap, n)) == grown(cap, n),
    decreases
            (if n > cap {
                n - cap
            } else {
                0
            }),
{
    if cap < n && 2 * cap < max_blocks() {
        lemma_grown(2 * cap, n);
        assert(grown(cap, grown(2 * cap, n)) == grown(2 * cap, grown(2 * cap, n)));
    }
}

impl Heap {
    /// Number of blocks that the store can hold before it has to grow.
    pub open spec fn capacity(self) -> nat {
        self.blocks.len()
    }

    /// Structural invariant of a store.
    pub open spec fn inv(self) -> bool {
        &&& 1 <= self.len <= self.blocks.len() <= max_blocks()
        &&& forall|p: nat| #[trigger]
            self.sizes.contains_key(p) ==> 1 <= p && self.sizes[p] >= 1 && p + self.sizes[p]
                <= self.len
        &&& forall|i: int| self.len <= i < self.blocks.len() ==> #[trigger] self.blocks[i] is Free
        &&& forall|p: nat| self.sizes.contains_key(p) <==> self.order.contains(p)
        &&& tiled(self.order, self.sizes, self.order.len())
        &&& tiled_end(self.order, self.sizes, self.order.len()) == self.len
    }

    /// Element `i` of the array whose header is at `ptr`.
    pub open spec fn elem(self, ptr: nat, i: int) -> Block {
        self.blocks[elem_at(ptr, i)]
    }

    /// The allocation at `p` is well typed: an array has room for its
    /// elements, and every value stored in the allocation is live. An array
    /// element or the content of a boxed cell may still be unwritten.
    pub open spec fn obj_ok(self, p: nat) -> bool {
        match self.blocks[p as int] {
            Block::Len(n) => {
                &&& self.sizes[p] == 1 + VALUE_BLOCKS * n
                &&& forall|i: int|
                    0 <= i < n ==> (#[trigger] self.elem(p, i) is Free || (self.elem(p, i) is Value
                        && self.elem(p, i)->Value_0.live_in(self)))
            },
            Block::Value(v) => self.sizes[p] == VALUE_BLOCKS && v.live_in(self),
            Block::Free => true,
            Block::Bytes(_) => true,
            Block::Forward(_) => false,
        }
    }

    /// Nothing in the allocation at `p` is left unwritten.
    pub open spec fn obj_full(self, p: nat) -> bool {
        match self.blocks[p as int] {
            Block::Len(n) => forall|i: int| 0 <= i < n ==> #[trigger] self.elem(p, i) is Value,
            Block::Free => false,
            _ => true,
        }
    }

    /// The store is sound and all its allocations are well typed.
    pub open spec fn well_formed(self) -> bool {
        &&& self.inv()
        &&& forall|p: nat| #[trigger] self.sizes.contains_key(p) ==> self.obj_ok(p)
    }

    /// Every allocation from offset `lo` on is fully written.
    pub open spec fn full_from(self, lo: nat) -> bool {
        forall|p: nat| #[trigger] self.sizes.contains_key(p) && p >= lo ==> self.obj_full(p)
    }

    /// Every allocation is fully written.
    pub open spec fn full(self) -> bool {
        self.full_from(0)
    }

    /// `self` holds all of `old`, unchanged, and possibly more.
    pub open spec fn extends(self, old: Heap) -> bool {
        &&& old.len <= self.len
        &&& old.sizes.submap_of(self.sizes)
        &&& forall|p: nat| #[trigger] self.sizes.contains_key(p) && p < old.len ==> old.sizes.contains_key(p)
        &&& forall|i: int| 0 <= i < old.len ==> self.blocks[i] == old.blocks[i]
    }

    /// A store with nothing allocated.
    pub open spec fn is_empty(self) -> bool {
        &&& self.len == 1
        &&& self.sizes =~= Map::empty()
        &&& self.order =~= Seq::empty()
    }

    /// `self` results from `old` by claiming `size` more blocks as one
    /// allocation, whatever these blocks now hold.
    pub open spec fn claimed(self, old: Heap, size: nat) -> bool {
        &&& self.len == old.len + size
        &&& self.sizes == old.sizes.insert(old.len, size)
        &&& self.order == old.order.push(old.len)
        &&& self.blocks.len() == grown(old.blocks.len(), self.len)
        &&& forall|i: int| 0 <= i < old.len ==> self.blocks[i] == old.blocks[i]
    }
}

/// A raw, growable arena divided into blocks.
pub struct GCSpace {
    /// The blocks; its length is the capacity of the store.
    pub blocks: Vec<Block>,
    /// Currently occupied space, in blocks.
    pub len: usize,
    pub sizes: Ghost<Map<nat, nat>>,
    pub order: Ghost<Seq<nat>>,
}

impl View for GCSpace {
    type V = Heap;

    open spec fn view(&self) -> Heap {
        Heap {
            blocks: self.blocks@,
            len: self.len as nat,
            sizes: self.sizes@,
            order: self.order@,
        }
    }
}

/// A tiled prefix stays tiled when an allocation is added after it.
pub proof fn lemma_tiled_frame(order: Seq<nat>, sizes: Map<nat, nat>, n: nat, p: nat, s: nat)
    requires
        tiled(order, sizes, n),
        n <= order.len(),
        !sizes.contains_key(p),
    ensures
        tiled(order.push(p), sizes.insert(p, s), n),
        tiled_end(order.push(p), sizes.insert(p, s), n) == tiled_end(order, sizes, n),
    decreases n,
{
    if n > 0 {
        lemma_tiled_frame(order, sizes, (n - 1) as nat, p, s);
    }
}

/// In a tiled prefix every allocation ends where the next begins or earlier
/// than the end of the prefix.
pub proof fn lemma_tiled_order(order: Seq<nat>, sizes: Map<nat, nat>, n: nat, i: int, j: int)
    requires
        tiled(order, sizes, n),
        0 <= i < j < n <= order.len(),
    ensures
        order[i] + sizes[order[i]] <= order[j],
        order[j] + sizes[order[j]] <= tiled_end(order, sizes, n),
    decreases n,
{
    if j < n - 1 {
        lemma_tiled_order(order, sizes, (n - 1) as nat, i, j);
    } else if i < j - 1 {
        lemma_tiled_order(order, sizes, (n - 1) as nat, i, j - 1);
    }
}

impl Heap {
    /// Two allocations of a sound store do not overlap.
    pub proof fn lemma_disjoint(self, p: nat, q: nat)
        requires
            self.inv(),
            self.sizes.contains_key(p),
            self.sizes.contains_key(q),
            p < q,
        ensures
            p + self.sizes[p] <= q,
    {
        assert(self.order.contains(p) && self.order.contains(q));
        let i = choose|i: int| 0 <= i < self.order.len() && self.order[i] == p;
        let j = choose|j: int| 0 <= j < self.order.len() && self.order[j] == q;
        if i < j {
            lemma_tiled_order(self.order, self.sizes, self.order.len(), i, j);
        } else if j < i {
            lemma_tiled_order(self.order, self.sizes, self.order.len(), j, i);
        }
    }
}

impl Heap {
    /// `self` holds the allocation at `p` exactly as `old` does.
    pub open spec fn same_obj(self, old: Heap, p: nat) -> bool {
        &&& self.sizes.contains_key(p)
        &&& self.sizes[p] == old.sizes[p]
        &&& forall|k: int| 0 <= k < old.sizes[p] ==> #[trigger] self.blocks[p + k] == old.blocks[p + k]
    }

    /// A value that is live in `old` is live in `self`, with the same
    /// content, if `self` holds the allocation it designates as `old` does.
    pub proof fn lemma_live_frame(self, old: Heap, v: MValue)
        requires
            old.inv(),
            v.live_in(old),
            v matches MValue::String(s) ==> s.is_inline() || self.same_obj(old, s.ptr as nat),
            v matches MValue::List(l) ==> self.sizes.contains_key(l.ptr as nat) && self.sizes[l.ptr as nat]
                == old.sizes[l.ptr as nat] && self.blocks[l.ptr as int] == old.blocks[l.ptr as int],
        ensures
            v.live_in(self),
            v matches MValue::String(s) ==> s.bytes_in(self) == s.bytes_in(old),
    {
        match v {
            MValue::String(s) => {
                if !s.is_inline() {
                    let p = s.ptr as nat;
                    assert forall|k: int| 0 <= k < blocks_for(s.len as nat) implies #[trigger] self.blocks[p
                        + k] is Bytes by {
                        assert(old.blocks[p + k] is Bytes);
                    }
                    assert(self.bytes_at(p, s.len as nat) =~= old.bytes_at(p, s.len as nat));
                }
            },
            MValue::List(l) => {},
        }
    }

    /// A value that is live in `old` is live in every store that extends it.
    pub proof fn lemma_extends_live(self, old: Heap, v: MValue)
        requires
            old.inv(),
            self.extends(old),
            v.live_in(old),
        ensures
            v.live_in(self),
            v matches MValue::String(s) ==> s.bytes_in(self) == s.bytes_in(old),
            v matches MValue::List(l) ==> self.blocks[l.ptr as int] == old.blocks[l.ptr as int],
    {
        self.lemma_live_frame(old, v);
    }

    /// A cell that is live in `old` is live in every store that extends it.
    pub proof fn lemma_extends_live_cell(self, old: Heap, c: GCValue)
        requires
            old.inv(),
            self.extends(old),
            c.live_in(old),
        ensures
            c.live_in(self),
            c.cell matches GCValueEnum::Other(OtherGCValue::BoxMValue(b)) ==> b.value_in(self) == b.value_in(old),
    {
        match c.cell {
            GCValueEnum::MValue(v) => {
                self.lemma_extends_live(old, v);
            },
            GCValueEnum::Other(OtherGCValue::BoxMValue(b)) => {
                assert(self.sizes.dom().contains(b.ptr as nat));
            },
        }
    }

    /// An allocation that is well typed in `old` is so in every store that extends it.
    pub proof fn lemma_extends_obj(self, old: Heap, p: nat)
        requires
            old.inv(),
            self.extends(old),
            old.sizes.contains_key(p),
            old.obj_ok(p),
        ensures
            self.obj_ok(p),
            old.obj_full(p) ==> self.obj_full(p),
    {
        assert(self.blocks[p as int] == old.blocks[p as int]);
        assert(self.sizes.contains_key(p) && self.sizes[p] == old.sizes[p]);
        match old.blocks[p as int] {
            Block::Len(n) => {
                assert forall|i: int| 0 <= i < n implies (#[trigger] self.elem(p, i) is Free || (self.elem(
                    p,
                    i,
                ) is Value && self.elem(p, i)->Value_0.live_in(self))) by {
                    assert(self.elem(p, i) == old.elem(p, i));
                    if old.elem(p, i) is Value {
                        self.lemma_extends_live(old, old.elem(p, i)->Value_0);
                    }
                }
                assert forall|i: int| 0 <= i < n && old.obj_full(p) implies #[trigger] self.elem(p, i) is Value by {
                    assert(self.elem(p, i) == old.elem(p, i));
                }
            },
            Block::Value(v) => {
                self.lemma_extends_live(old, v);
            },
            _ => {},
        }
    }

    /// A sound store that extends a well-formed one is well formed if its
    /// new allocations are well typed.
    pub proof fn lemma_extends_well_formed(self, old: Heap)
        requires
            old.well_formed(),
            self.inv(),
            self.extends(old),
            forall|p: nat| #[trigger] self.sizes.contains_key(p) && !old.sizes.contains_key(p) ==> self.obj_ok(p),
        ensures
            self.well_formed(),
    {
        assert forall|p: nat| #[trigger] self.sizes.contains_key(p) implies self.obj_ok(p) by {
            if old.sizes.contains_key(p) {
                self.lemma_extends_obj(old, p);
            }
        }
    }

    /// Extending a store keeps its allocations fully written.
    pub proof fn lemma_extends_full(self, old: Heap, lo: nat)
        requires
            old.well_formed(),
            old.full_from(lo),
            self.extends(old),
            forall|p: nat| #[trigger] self.sizes.contains_key(p) && !old.sizes.contains_key(p) ==> self.obj_full(p),
        ensures
            self.full_from(lo),
    {
        assert forall|p: nat| #[trigger] self.sizes.contains_key(p) && p >= lo implies self.obj_full(p) by {
            if old.sizes.contains_key(p) {
                self.lemma_extends_obj(old, p);
            }
        }
    }

    /// A store that results from a claim extends the store before the claim.
    pub proof fn lemma_claimed_extends(self, old: Heap, size: nat)
        requires
            old.inv(),
            self.claimed(old, size),
        ensures
            self.extends(old),
            !old.sizes.contains_key(old.len),
            forall|p: nat| #[trigger] self.sizes.contains_key(p) && !old.sizes.contains_key(p) ==> p == old.len,
    {
        if old.sizes.contains_key(old.len) {
            assert(old.len + old.sizes[old.len] <= old.len);
        }
    }
}

impl GCSpace {
    /// Creates a store of `STARTING_BLOCKS` blocks with only block 0 occupied.
    pub fn new() -> (s: Self)
        ensures
            s@.inv(),
            s@.is_empty(),
            s@.capacity() == STARTING_BLOCKS,
    {
        let mut blocks: Vec<Block> = Vec::new();
        let mut i: usize = 0;
        while i < STARTING_BLOCKS
            invariant
                i <= STARTING_BLOCKS,
                blocks.len() == i,
                forall|j: int| 0 <= j < i ==> #[trigger] blocks[j] is Free,
            decreases STARTING_BLOCKS - i,
        {
            blocks.push(Block::Free);
            i = i + 1;
        }
        GCSpace { blocks, len: 1, sizes: Ghost(Map::empty()), order: Ghost(Seq::empty()) }
    }

    /// Number of occupied blocks.
    pub fn len(&self) -> (n: usize)
        ensures
            n == self@.len,
    {
        self.len
    }

    /// Largest number of blocks that a store may occupy.
    pub fn max_len() -> (n: usize)
        ensures
            n == max_blocks(),
    {
        usize::MAX / 2 + 1
    }

    /// Number of blocks the store can hold before it has to grow.
    pub fn capacity(&self) -> (n: usize)
        ensures
            n == self@.capacity(),
    {
        self.blocks.len()
    }

    /// Grows the store to hold at least `new_size_blocks` blocks, doubling its
    /// capacity as often as needed. Does nothing if it is large enough.
    pub fn expand(&mut self, new_size_blocks: usize)
        requires
            old(self)@.inv(),
            new_size_blocks <= max_blocks(),
        ensures
            final(self)@.inv(),
            final(self)@.capacity() == grown(old(self)@.capacity(), new_size_blocks as nat),
            final(self)@.capacity() >= new_size_blocks,
            final(self)@.capacity() >= old(self)@.capacity(),
            final(self)@.len == old(self)@.len,
            final(self)@.sizes == old(self)@.sizes,
            final(self)@.order == old(self)@.order,
            forall|i: int|
                0 <= i < old(self)@.capacity() ==> final(self)@.blocks[i] == old(self)@.blocks[i],
    {
        let mut new_size: usize = self.blocks.len();
        while new_size < new_size_blocks
            invariant
                1 <= new_size <= max_blocks(),
                new_size_blocks <= max_blocks(),
                grown(new_size as nat, new_size_blocks as nat) == grown(
                    old(self)@.capacity(),
                    new_size_blocks as nat,
                ),
                new_size >= old(self)@.capacity(),
            decreases
                    (if new_size_blocks > new_size {
                        new_size_blocks - new_size
                    } else {
                        0
                    }),
        {
            if new_size >= (usize::MAX / 2 + 1) / 2 {
                new_size = usize::MAX / 2 + 1;
            } else {
                new_size = new_size * 2;
            }
        }
        while self.blocks.len() < new_size
            invariant
                self.len == old(self).len,
                self.sizes == old(self).sizes,
                self.order == old(self).order,
                old(self)@.capacity() <= self.blocks.len() <= new_size,
                old(self)@.inv(),
                forall|i: int|
                    0 <= i < old(self)@.capacity() ==> self.blocks[i] == old(self)@.blocks[i],
                forall|i: int|
                    old(self)@.capacity() <= i < self.blocks.len() ==> #[trigger] self.blocks[i] is Free,
            decreases new_size - self.blocks.len(),
        {
            self.blocks.push(Block::Free);
        }
    }

    /// Moves the high-water mark up to `len`, which claims the blocks from the
    /// old mark on as one allocation; the store grows if it has to.
    pub fn set_len(&mut self, len: usize)
        requires
            old(self)@.inv(),
            old(self)@.len <= len <= max_blocks(),
        ensures
            final(self)@.inv(),
            len == old(self)@.len ==> final(self)@ == old(self)@,
            len > old(self)@.len ==> final(self)@.claimed(old(self)@, (len - old(self)@.len) as nat),
            forall|i: int| old(self)@.len <= i < len ==> #[trigger] final(self)@.blocks[i] is Free,
    {
        if len == self.len {
            return ;
        }
        self.expand(len);
        self.sizes = Ghost(self.sizes@.insert(self.len as nat, (len - self.len) as nat));
        self.order = Ghost(self.order@.push(self.len as nat));
        self.len = len;
        proof {
            let h = old(self)@;
            let order = h.order.push(h.len);
            lemma_tiled_frame(h.order, h.sizes, h.order.len(), h.len, (len - h.len) as nat);
            assert forall|p: nat| self@.sizes.contains_key(p) <==> order.contains(p) by {
                if h.order.contains(p) {
                    let i = choose|i: int| 0 <= i < h.order.len() && h.order[i] == p;
                    assert(order[i] == p);
                }
                if p == h.len {
                    assert(order[h.order.len() as int] == p);
                }
            }
        }
    }

    /// Clears the store. All objects in it are forgotten.
    pub fn clear(&mut self)
        requires
            old(self)@.inv(),
        ensures
            final(self)@.inv(),
            final(self)@.is_empty(),
            final(self)@.capacity() == old(self)@.capacity(),
    {
        let mut i: usize = 1;
        while i < self.len
            invariant
                1 <= i <= self.len <= self.blocks.len(),
                self.len == old(self).len,
                self.blocks.len() == old(self).blocks.len(),
                forall|j: int| 1 <= j < i ==> #[trigger] self.blocks[j] is Free,
                forall|j: int| self.len <= j < self.blocks.len() ==> #[trigger] self.blocks[j] is Free,
            decreases self.len - i,
        {
            self.blocks.set(i, Block::Free);
            i = i + 1;
        }
        self.len = 1;  // the first block stays reserved
        self.sizes = Ghost(Map::empty());
        self.order = Ghost(Seq::empty());
    }

    /// The block at offset `block_idx`.
    pub fn block_ptr(&self, block_idx: usize) -> (b: &Block)
        requires
            block_idx < self@.capacity(),
        ensures
            *b == self@.blocks[block_idx as int],
    {
        &self.blocks[block_idx]
    }

    /// Overwrites the occupied block at offset `block_idx`.
    pub fn write(&mut self, block_idx: usize, block: Block)
        requires
            old(self)@.inv(),
            block_idx < old(self)@.len,
        ensures
            final(self)@.inv(),
            final(self)@ == (Heap {
                blocks: old(self)@.blocks.update(block_idx as int, block),
                ..old(self)@
            }),
    {
        self.blocks.set(block_idx, block);
    }
}

} // verus!
