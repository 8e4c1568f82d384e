use vstd::prelude::*;

verus! {

/// Largest number of elements that the length field can express: the most
/// significant bit of the field is taken.
pub open spec fn len_limit() -> nat {
    (usize::MAX / 2) as nat
}

/// Mask of the bits of the length field that hold the number of elements:
/// all but the most significant one.
spec fn len_mask() -> usize {
    !0usize >> 1
}

/// No number exceeds the one whose bits are all set; half of it is the mask.
proof fn lemma_all_ones(x: usize)
    by (bit_vector)
    ensures
        x <= !0usize,
        !0usize >> 1 == !0usize / 2,
{
}

/// The mask of the number of elements is the largest number of elements.
proof fn lemma_mask()
    ensures
        len_mask() == len_limit(),
{
    lemma_all_ones(usize::MAX);
}

/// A dynamically-sized array that can hold `N` elements inline.
///
/// If the length exceeds `N`, its elements move to the heap, where they stay.
pub struct IVec<const N: usize, T> {
    /// The number of elements. The most significant bit is set as long as
    /// the array is stored inline.
    len: usize,
    data: Vec<T>,
}

/// A number of elements without tag reads as itself, and as not inline.
proof fn lemma_untagged(x: usize)
    by (bit_vector)
    requires
        x <= !0usize >> 1,
    ensures
        x & (!0usize >> 1) == x,
        x & !(!0usize >> 1) == 0,
{
}

/// The tag alone reads as no elements, inline.
proof fn lemma_tag_alone()
    by (bit_vector)
    ensures
        !(!0usize >> 1) & (!0usize >> 1) == 0,
        !(!0usize >> 1) & !(!0usize >> 1) != 0,
{
}

/// Adding one to a tagged length adds one to the number of elements and
/// keeps the tag.
proof fn lemma_tagged_succ(y: usize)
    by (bit_vector)
    requires
        y & !(!0usize >> 1) != 0,
        y & (!0usize >> 1) < !0usize >> 1,
    ensures
        y < !0usize,
        ((y + 1) as usize) & (!0usize >> 1) == (y & (!0usize >> 1)) + 1,
        ((y + 1) as usize) & !(!0usize >> 1) != 0,
{
}

impl<const N: usize, T> View for IVec<N, T> {
    type V = Seq<T>;

    closed spec fn view(&self) -> Seq<T> {
        self.data@
    }
}

impl<const N: usize, T> IVec<N, T> {
    /// The elements are stored inline.
    pub closed spec fn inline(&self) -> bool {
        self.len & !len_mask() != 0
    }

    /// The length field is the number of elements, tagged while the array
    /// is inline; an inline array has at most `N` elements.
    pub closed spec fn wf(&self) -> bool {
        &&& self.data@.len() <= len_mask()
        &&& self.len & len_mask() == self.data@.len()
        &&& self.inline() ==> self.data@.len() <= N
    }

    /// Number of elements.
    pub fn len(&self) -> (n: usize)
        requires
            self.wf(),
        ensures
            n == self@.len(),
    {
        self.len & (!0usize >> 1)
    }

    /// Whether the elements are stored inline.
    pub fn is_inline(&self) -> (b: bool)
        ensures
            b == self.inline(),
    {
        self.len & !(!0usize >> 1) != 0
    }

    /// Creates an empty array, stored inline.
    pub fn new() -> (v: Self)
        ensures
            v.wf(),
            v@ == Seq::<T>::empty(),
            v.inline(),
    {
        proof {
            lemma_tag_alone();
        }
        IVec { len: !(!0usize >> 1), data: Vec::new() }
    }

    /// Creates an array that holds the elements of `value`, stored in the heap.
    pub fn from_vec(value: Vec<T>) -> (v: Self)
        requires
            value@.len() <= len_limit(),
        ensures
            v.wf(),
            v@ == value@,
            !v.inline(),
    {
        let len = value.len();
        proof {
            lemma_mask();
            lemma_untagged(len);
        }
        IVec { len, data: value }
    }

    /// The elements, as a slice.
    pub fn as_slice(&self) -> (s: &[T])
        ensures
            s@ == self@,
    {
        self.data.as_slice()
    }

    /// The elements, as a slice that can be written to. The array stays
    /// well formed as long as the slice keeps its length.
    pub fn as_mut_slice(&mut self) -> (s: &mut [T])
        requires
            old(self).wf(),
        ensures
            s@ == old(self)@,
            final(self)@ == final(s)@,
            final(self).inline() == old(self).inline(),
            final(s)@.len() == s@.len() ==> final(self).wf(),
    {
        self.data.as_mut_slice()
    }

    /// The element at `index`, or `None` if `index` is out of range.
    pub fn get(&self, index: usize) -> (r: Option<&T>)
        ensures
            r == if index < self@.len() {
                Some(&self@[index as int])
            } else {
                None
            },
    {
        if index < self.data.len() {
            Some(&self.data[index])
        } else {
            None
        }
    }

    /// Replaces the element at `index`.
    pub fn set(&mut self, index: usize, val: T)
        requires
            old(self).wf(),
            index < old(self)@.len(),
        ensures
            final(self).wf(),
            final(self)@ == old(self)@.update(index as int, val),
            final(self).inline() == old(self).inline(),
    {
        self.data.set(index, val);
    }

    /// Appends an element. An inline array that is full moves to the heap.
    pub fn push(&mut self, val: T)
        requires
            old(self).wf(),
            old(self)@.len() < len_limit(),
        ensures
            final(self).wf(),
            final(self)@ == old(self)@.push(val),
            final(self).inline() <==> old(self).inline() && old(self)@.len() < N,
    {
        let len = self.len();
        proof {
            lemma_mask();
            lemma_untagged((len + 1) as usize);
        }
        if self.is_inline() && len < N {
            proof {
                lemma_tagged_succ(self.len);
            }
            self.data.push(val);
            self.len = self.len + 1;
        } else {
            // there is no room to store this inline: everything moves to the heap
            self.data.push(val);
            self.len = len + 1;
        }
    }
}

impl<const N: usize, T> core::ops::Deref for IVec<N, T> {
    type Target = [T];

    fn deref(&self) -> (s: &[T])
        ensures
            s@ == self@,
    {
        self.as_slice()
    }
}

} // verus!
