use vstd::prelude::*;
use crate::gc::gcspace::{Block, GCSpace, Heap};
use crate::util::{is_power_two, lemma_power_two_gap};

pub mod collection;
pub mod cycle;
pub mod gcspace;
pub mod primitives;
pub mod reach;
pub mod shape;
pub mod util;

verus! {

/// Size in bytes of a machine word, which every stored object is aligned to.
pub const WORD_SIZE: usize = 8;

/// Size in bytes of one block, the unit of allocation and addressing.
pub const BLOCK_SIZE: usize = 8;

/// The size of a block is the smallest power of two that is no less than
/// the size of a machine word.
pub proof fn lemma_block_size()
    ensures
        is_power_two(BLOCK_SIZE as nat),
        BLOCK_SIZE >= WORD_SIZE,
        forall|m: nat| is_power_two(m) && m >= WORD_SIZE ==> BLOCK_SIZE <= m,
{
    reveal_with_fuel(is_power_two, 4);
    assert forall|m: nat| is_power_two(m) && m >= WORD_SIZE implies BLOCK_SIZE <= m by {
        if m < BLOCK_SIZE {
            lemma_power_two_gap(m, BLOCK_SIZE as nat);
        }
    }
}

/// Number of blocks that `bytes` bytes take up.
pub open spec fn blocks_for(bytes: nat) -> nat {
    (bytes + BLOCK_SIZE - 1) as nat / (BLOCK_SIZE as nat)
}

/// Computes the number of blocks that `bytes` bytes take up.
pub fn blocks_needed(bytes: usize) -> (n: usize)
    ensures
        n == blocks_for(bytes as nat),
{
    if bytes % BLOCK_SIZE == 0 {
        bytes / BLOCK_SIZE
    } else {
        bytes / BLOCK_SIZE + 1
    }
}

/// A copying collector over two block stores.
///
/// Values are allocated in from-space. A collection cycle copies what the
/// roots reach into to-space and then swaps the two stores.
pub struct GarbageCollector {
    /// The store that holds the live data.
    pub from_space: GCSpace,
    /// The scratch store, used only during a cycle.
    pub to_space: GCSpace,
    /// The blocks of from-space as they were when the last cycle began.
    pub origin: Ghost<Seq<Block>>,
    /// For each copy made in the last cycle, by the offset of the copy, the
    /// offset at which the object lay that it was made of.
    pub moved: Ghost<Map<nat, nat>>,
    /// The allocations that the roots of the last cycle reached when it
    /// began, by their offsets.
    pub reached: Ghost<Set<nat>>,
}

impl GarbageCollector {
    /// The live store.
    pub open spec fn heap(self) -> Heap {
        self.from_space@
    }

    /// Invariant of a collector between two cycles: every allocation of
    /// from-space is well typed and fully written, and to-space is empty.
    pub open spec fn wf(self) -> bool {
        &&& self.from_space@.well_formed()
        &&& self.from_space@.full()
        &&& self.to_space@.inv()
        &&& self.to_space@.is_empty()
        &&& self.to_space@.capacity() == self.from_space@.capacity()
    }

    /// Capacity, in blocks, of each of the two stores.
    pub open spec fn spec_capacity(self) -> nat {
        self.from_space@.capacity()
    }

    /// Number of occupied blocks of the live store.
    pub fn len(&self) -> (n: usize)
        ensures
            n == self.heap().len,
    {
        self.from_space.len()
    }

    /// Capacity, in blocks, of the live store.
    pub fn capacity(&self) -> (n: usize)
        ensures
            n == self.spec_capacity(),
    {
        self.from_space.capacity()
    }

    /// Grows to-space to the capacity of from-space, after an allocation
    /// that may have made from-space grow.
    pub(crate) fn level(&mut self, Ghost(before): Ghost<nat>, Ghost(n): Ghost<nat>)
        requires
            old(self).from_space@.inv(),
            old(self).to_space@.inv(),
            old(self).to_space@.is_empty(),
            1 <= before <= gcspace::max_blocks(),
            n <= gcspace::max_blocks(),
            old(self).to_space@.capacity() == before,
            old(self).from_space@.capacity() == gcspace::grown(before, n),
        ensures
            final(self).from_space == old(self).from_space,
            final(self).origin == old(self).origin,
            final(self).moved == old(self).moved,
            final(self).reached == old(self).reached,
            final(self).to_space@.inv(),
            final(self).to_space@.is_empty(),
            final(self).to_space@.capacity() == final(self).from_space@.capacity(),
    {
        proof {
            gcspace::lemma_grown(before, n);
        }
        self.to_space.expand(self.from_space.capacity());
    }

    /// Creates a collector with two empty stores of the starting capacity.
    pub fn new() -> (gc: Self)
        ensures
            gc.wf(),
            gc.heap().is_empty(),
            gc.spec_capacity() == gcspace::STARTING_BLOCKS,
    {
        GarbageCollector {
            from_space: GCSpace::new(),
            to_space: GCSpace::new(),
            origin: Ghost(Seq::empty()),
            moved: Ghost(Map::empty()),
            reached: Ghost(Set::empty()),
        }
    }
}

} // verus!
