use vstd::prelude::*;
use vstd::slice::*;
use vstd::string::*;
use vstd::utf8::*;
use crate::eval::MValue;
use crate::gc::gcspace::{max_blocks, Block, GCObject, GCPtr, GCSpace, Heap};
use crate::gc::{blocks_for, blocks_needed, GarbageCollector, BLOCK_SIZE};

verus! {

/// Size in bytes of a string handle: two machine words.
pub const STRING_SIZE: usize = 16;

/// Longest length that the length field of an inline string can express.
pub const INLINE_MAX: usize = 127;

/// A garbage collected string.
///
/// A short string is stored inline, in the handle itself, and `ptr` is zero.
/// Any other string lies in the heap: `ptr` is the offset of its first block
/// and `len` its length in bytes.
#[derive(Clone, Copy)]
pub struct GCString {
    /// The bytes of an inline string.
    pub bytes: [u8; 15],
    /// Offset of the first block of a heap string; zero for an inline string.
    pub ptr: usize,
    /// Length in bytes.
    pub len: usize,
}

/// Whether a string of `len` bytes is stored inline.
pub open spec fn fits_inline(len: nat) -> bool {
    len < STRING_SIZE && len <= INLINE_MAX
}

impl Heap {
    /// The `len` bytes stored from block `ptr` on.
    pub open spec fn bytes_at(self, ptr: nat, len: nat) -> Seq<u8> {
        Seq::new(len, |i: int| self.blocks[ptr + i / 8]->Bytes_0@[i % 8])
    }

    /// The `n` blocks from `ptr` on all hold string data.
    pub open spec fn holds_bytes(self, ptr: nat, n: nat) -> bool {
        forall|k: int| 0 <= k < n ==> #[trigger] self.blocks[ptr + k] is Bytes
    }
}

impl GCString {
    pub open spec fn is_inline(self) -> bool {
        self.ptr == 0
    }

    /// The bytes of an inline string.
    pub open spec fn inline_bytes(self) -> Seq<u8> {
        self.bytes@.subrange(0, self.len as int)
    }

    /// The bytes of the string, read in `h` unless it is inline.
    pub open spec fn bytes_in(self, h: Heap) -> Seq<u8> {
        if self.ptr == 0 {
            self.inline_bytes()
        } else {
            h.bytes_at(self.ptr as nat, self.len as nat)
        }
    }

    /// The text of the string.
    pub open spec fn text(self, h: Heap) -> Seq<char> {
        decode_utf8(self.bytes_in(h))
    }

    /// Where the string has been moved to, going by the forwarding markers
    /// in `blocks`. An inline string stays where it is.
    pub open spec fn forward(self, blocks: Seq<Block>) -> Option<GCString> {
        if self.ptr == 0 {
            Some(self)
        } else {
            match blocks[self.ptr as int] {
                Block::Forward(to) => Some(GCString { ptr: to, ..self }),
                _ => None,
            }
        }
    }

    /// The string is inline, or designates string data of `h`.
    pub open spec fn live_in(self, h: Heap) -> bool {
        if self.ptr == 0 {
            self.len < STRING_SIZE && valid_utf8(self.inline_bytes())
        } else {
            &&& !fits_inline(self.len as nat)
            &&& h.sizes.contains_key(self.ptr as nat)
            &&& h.sizes[self.ptr as nat] == blocks_for(self.len as nat)
            &&& h.holds_bytes(self.ptr as nat, blocks_for(self.len as nat))
            &&& valid_utf8(h.bytes_at(self.ptr as nat, self.len as nat))
        }
    }
}

/// Reads a byte sequence as text. Wraps `core::str::from_utf8`: the result is
/// `Some` exactly when the bytes are valid UTF-8, and the string then consists
/// of these very bytes.
#[verifier::external_body]
fn str_from_utf8(bytes: &[u8]) -> (r: Option<&str>)
    ensures
        r is Some <==> valid_utf8(bytes@),
        r matches Some(s) ==> s.spec_bytes() == bytes@,
{
    core::str::from_utf8(bytes).ok()
}

impl GCString {
    /// Gets the string if it is stored inline. Otherwise returns `None`.
    pub fn get_inline(&self) -> (r: Option<&str>)
        ensures
            r is Some <==> self.is_inline() && self.len < STRING_SIZE && valid_utf8(
                self.inline_bytes(),
            ),
            r matches Some(s) ==> s@ == decode_utf8(self.inline_bytes()),
    {
        if self.ptr != 0 || self.len >= STRING_SIZE {
            return None;
        }
        let all = self.bytes.as_slice();
        let r = str_from_utf8(slice_subrange(all, 0, self.len));
        proof {
            if let Some(s) = r {
                encode_utf8_decode_utf8(s@);
            }
        }
        r
    }

    /// Creates a new garbage collected string. This never starts a
    /// collection cycle.
    pub fn new(gc: &mut GarbageCollector, string: &str) -> (r: Self)
        requires
            old(gc).wf(),
            old(gc).heap().len + blocks_for(string.len() as nat) <= max_blocks(),
        ensures
            final(gc).wf(),
            final(gc).heap().extends(old(gc).heap()),
            r.live_in(final(gc).heap()),
            r.text(final(gc).heap()) == string@,
            r.is_inline() <==> fits_inline(string.spec_bytes().len()),
            r.is_inline() ==> final(gc).heap() == old(gc).heap(),
            !r.is_inline() ==> r.ptr == old(gc).heap().len && final(gc).heap().claimed(
                old(gc).heap(),
                blocks_for(string.spec_bytes().len()),
            ),
    {
        let r = gc.from_space.alloc_string(string);
        gc.level(Ghost(old(gc).spec_capacity()), Ghost(gc.heap().len));
        proof {
            if !r.is_inline() {
                let h = gc.heap();
                h.lemma_claimed_extends(old(gc).heap(), blocks_for(r.len as nat));
                h.lemma_extends_well_formed(old(gc).heap());
                h.lemma_extends_full(old(gc).heap(), 0);
            }
        }
        r
    }

    /// Gets the string. The string must be live in `gc`, and no collection
    /// cycle may be in progress.
    pub fn get(&self, gc: &GarbageCollector) -> (r: String)
        requires
            gc.wf(),
            self.live_in(gc.heap()),
        ensures
            r@ == self.text(gc.heap()),
    {
        gc.from_space.get_string(self)
    }
}

impl GCSpace {
    /// Creates a garbage collected string in this store. A string that fits
    /// is stored inline, in the handle, and the store is left as it is.
    pub fn alloc_string(&mut self, string: &str) -> (r: GCString)
        requires
            old(self)@.inv(),
            old(self)@.len + blocks_for(string.len() as nat) <= max_blocks(),
        ensures
            final(self)@.inv(),
            r.live_in(final(self)@),
            r.text(final(self)@) == string@,
            r.bytes_in(final(self)@) == string.spec_bytes(),
            r.len == string.spec_bytes().len(),
            r.is_inline() <==> fits_inline(string.spec_bytes().len()),
            r.is_inline() ==> final(self)@ == old(self)@,
            !r.is_inline() ==> r.ptr == old(self)@.len && final(self)@.claimed(
                old(self)@,
                blocks_for(r.len as nat),
            ),
    {
        let bytes = string.as_bytes();
        let len = bytes.len();
        proof {
            encode_utf8_valid_utf8(string@);
            encode_utf8_decode_utf8(string@);
        }
        // If the string is small enough, it is stored inline rather than in the heap
        if len < STRING_SIZE && len <= INLINE_MAX {
            let mut buf = [0u8;15];
            let mut i: usize = 0;
            while i < len
                invariant
                    i <= len < STRING_SIZE,
                    len == bytes@.len(),
                    forall|j: int| 0 <= j < i ==> buf@[j] == bytes@[j],
                decreases len - i,
            {
                buf[i] = bytes[i];
                i = i + 1;
            }
            let r = GCString { bytes: buf, ptr: 0, len };
            assert(r.inline_bytes() =~= bytes@);
            return r;
        }
        let num_blocks = blocks_needed(len);
        let data_ptr = self.len();
        self.set_len(data_ptr + num_blocks);
        let ghost claimed = self@;
        let mut k: usize = 0;
        while k < num_blocks
            invariant
                k <= num_blocks,
                num_blocks == blocks_for(len as nat),
                len == bytes@.len(),
                data_ptr + num_blocks == self@.len,
                self@.inv(),
                self@.len == claimed.len,
                self@.sizes == claimed.sizes,
                self@.order == claimed.order,
                self@.blocks.len() == claimed.blocks.len(),
                forall|i: int| 0 <= i < data_ptr ==> self@.blocks[i] == claimed.blocks[i],
                forall|b: int| 0 <= b < k ==> #[trigger] self@.blocks[data_ptr + b] is Bytes,
                forall|i: int|
                    0 <= i < len && i < 8 * k ==> self@.blocks[data_ptr + i / 8]->Bytes_0@[i % 8]
                        == #[trigger] bytes@[i],
            decreases num_blocks - k,
        {
            let mut chunk = [0u8;8];
            let mut j: usize = 0;
            while j < BLOCK_SIZE
                invariant
                    j <= 8,
                    k < num_blocks,
                    num_blocks == blocks_for(len as nat),
                    len == bytes@.len(),
                    forall|i: int|
                        0 <= i < j && 8 * k + i < len ==> #[trigger] chunk@[i] == bytes@[8 * k + i],
                decreases 8 - j,
            {
                if k * BLOCK_SIZE + j < len {
                    chunk[j] = bytes[k * BLOCK_SIZE + j];
                }
                j = j + 1;
            }
            self.write(data_ptr + k, Block::Bytes(chunk));
            k = k + 1;
        }
        let r = GCString { bytes: [0u8;15], ptr: data_ptr, len };
        assert(self@.bytes_at(data_ptr as nat, len as nat) =~= bytes@);
        r
    }

    /// Gets the text of a string that is inline or lies in this store.
    pub fn get_string(&self, string: &GCString) -> (r: String)
        requires
            self@.inv(),
            string.live_in(self@),
        ensures
            r@ == string.text(self@),
    {
        if let Some(inline) = string.get_inline() {
            return inline.to_owned();
        }
        let mut bytes: Vec<u8> = Vec::new();
        let mut i: usize = 0;
        while i < string.len
            invariant
                i <= string.len,
                string.ptr != 0,
                self@.inv(),
                string.live_in(self@),
                bytes@ == self@.bytes_at(string.ptr as nat, i as nat),
            decreases string.len - i,
        {
            let block = self.block_ptr(string.ptr + i / BLOCK_SIZE);
            assert(self@.blocks[string.ptr + i / 8] is Bytes);
            if let Block::Bytes(chunk) = block {
                bytes.push(chunk[i % BLOCK_SIZE]);
            }
            i = i + 1;
            assert(bytes@ =~= self@.bytes_at(string.ptr as nat, i as nat));
        }
        let r = str_from_utf8(bytes.as_slice());
        proof {
            encode_utf8_decode_utf8(r.unwrap()@);
        }
        r.unwrap().to_owned()
    }
}

impl GCObject for GCString {
    fn get_forwarded_value(self, gc: &GarbageCollector) -> (r: Option<Self>) {
        if self.ptr == 0 {
            return Some(self);
        }
        let block = gc.from_space.block_ptr(self.ptr);
        // a block that is no marker is a part of the string
        match block {
            Block::Forward(forward) => Some(GCString { bytes: self.bytes, ptr: *forward, len: self.len }),
            _ => None,
        }
    }
}

impl GCPtr for GCString {
    const MSB_RESERVED: bool = false;

    open spec fn valid_in(self, h: Heap) -> bool {
        self.live_in(h)
    }

    open spec fn pointee(self) -> Option<nat> {
        MValue::String(self).target()
    }

    open spec fn forwarded(self, blocks: Seq<Block>) -> Option<Self> {
        self.forward(blocks)
    }

    fn gc_copy(self, gc: &mut GarbageCollector) -> (r: Self)
        ensures
            self.forward(old(gc).from_space@.blocks) is None ==> r.ptr == old(gc).to_space@.len,
        decreases old(gc).pending_blocks(), 0nat,
    {
        if let Some(forward) = self.get_forwarded_value(gc) {
            proof {
                gc.lemma_advanced_refl();
            }
            return forward;
        }
        proof {
            gc.lemma_intact(self.ptr as nat);
        }
        let num_blocks = blocks_needed(self.len);
        let data_ptr = gc.to_space.len();
        gc.to_space.set_len(data_ptr + num_blocks);
        let ghost claimed = gc.to_space@;
        let mut k: usize = 0;
        while k < num_blocks
            invariant
                k <= num_blocks,
                num_blocks == blocks_for(self.len as nat),
                gc.from_space == old(gc).from_space,
                gc.origin == old(gc).origin,
                gc.moved == old(gc).moved,
                gc.reached == old(gc).reached,
                old(gc).from_space@.inv(),
                old(gc).from_space@.sizes.contains_key(self.ptr as nat),
                old(gc).from_space@.sizes[self.ptr as nat] == num_blocks,
                data_ptr + num_blocks == gc.to_space@.len,
                gc.to_space@.inv(),
                gc.to_space@.len == claimed.len,
                gc.to_space@.sizes == claimed.sizes,
                gc.to_space@.order == claimed.order,
                gc.to_space@.blocks.len() == claimed.blocks.len(),
                forall|i: int| 0 <= i < data_ptr ==> gc.to_space@.blocks[i] == claimed.blocks[i],
                forall|j: int|
                    0 <= j < k ==> #[trigger] gc.to_space@.blocks[data_ptr + j] == gc.from_space@.blocks[self.ptr
                        + j],
            decreases num_blocks - k,
        {
            let block = *gc.from_space.block_ptr(self.ptr + k);
            gc.to_space.write(data_ptr + k, block);
            k = k + 1;
        }
        gc.from_space.write(self.ptr, Block::Forward(data_ptr));
        gc.moved = Ghost(gc.moved@.insert(data_ptr as nat, self.ptr as nat));
        proof {
            let p = self.ptr as nat;
            let o = old(gc).origin_heap();
            assert(o.blocks[p + 0int] is Bytes);
            assert forall|j: int| 0 <= j < o.sizes[p] implies #[trigger] gc.to_space@.blocks[data_ptr + j]
                == o.blocks[p + j] by {
                assert(old(gc).from_space@.blocks[p + j] == o.blocks[p + j]);
            }
            gc.lemma_mark(*old(gc), p, data_ptr);
            gc.to_space@.lemma_claimed_extends(old(gc).to_space@, num_blocks as nat);
            assert(gc.to_space@.blocks[data_ptr + 0int] is Bytes);
            gc.to_space@.lemma_extends_full(old(gc).to_space@, old(gc).to_space@.len);
        }
        GCString { bytes: self.bytes, ptr: data_ptr, len: self.len }
    }
}

} // verus!
