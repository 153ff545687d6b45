//! Small helpers shared by the toolkit and the compositor: images held in
//! memory and comparisons on partially ordered values.

use vstd::prelude::*;
use vstd::std_specs::cmp::{PartialOrdIs, PartialOrdSpec};

verus! {

/// Sum of the bytes of `s`.
pub open spec fn byte_sum(s: Seq<u8>) -> nat
    decreases s.len(),
{
    if s.len() == 0 {
        0
    } else {
        byte_sum(s.drop_last()) + s.last() as nat
    }
}

proof fn lemma_byte_sum_prefix(s: Seq<u8>, i: int)
    requires
        0 <= i <= s.len(),
    ensures
        byte_sum(s.subrange(0, i)) <= byte_sum(s),
    decreases s.len() - i,
{
    if i < s.len() {
        lemma_byte_sum_prefix(s, i + 1);
        assert(s.subrange(0, i + 1).drop_last() =~= s.subrange(0, i));
    } else {
        assert(s.subrange(0, i) =~= s);
    }
}

/// An image buffer in memory: `width * height` pixels of `element_size`
/// bytes each.
#[derive(Debug)]
pub struct MemImage {
    /// The pixel bytes.
    pub data: Vec<u8>,
    /// Size of one pixel, in bytes.
    pub element_size: usize,
    pub width: usize,
    pub height: usize,
    /// Pixels from the start of one row to the next; 0 means tightly packed.
    pub stride: u32,
}

impl MemImage {
    /// The pixel bytes.
    pub open spec fn bytes(self) -> Seq<u8> {
        self.data@
    }

    /// An image over `data`, which holds `width * height` pixels of
    /// `element_size` bytes; the stride is 0.
    pub fn new(data: Vec<u8>, element_size: usize, width: usize, height: usize) -> (r: MemImage)
        requires
            data@.len() == element_size * width * height,
        ensures
            r.bytes() == data@,
            r.element_size == element_size,
            r.width == width,
            r.height == height,
            r.stride == 0,
    {
        MemImage { data: data, element_size: element_size, width: width, height: height, stride: 0 }
    }

    /// The pixel bytes.
    pub fn as_slice(&self) -> (r: &[u8])
        ensures
            r@ == self.bytes(),
    {
        self.data.as_slice()
    }

    /// Sets the stride of this image to something besides the default 0.
    pub fn set_stride(&mut self, stride: u32)
        ensures
            final(self).stride == stride,
            final(self).bytes() == old(self).bytes(),
            final(self).element_size == old(self).element_size,
            final(self).width == old(self).width,
            final(self).height == old(self).height,
    {
        self.stride = stride;
    }

    /// The sum of all pixel bytes: a cheap fingerprint for comparisons.
    pub fn checksum(&self) -> (r: usize)
        requires
            byte_sum(self.bytes()) <= usize::MAX,
        ensures
            r == byte_sum(self.bytes()),
    {
        let s = self.as_slice();
        let mut ret: usize = 0;
        let mut i: usize = 0;
        while i < s.len()
            invariant
                s@ == self.bytes(),
                byte_sum(s@) <= usize::MAX,
                i <= s@.len(),
                ret == byte_sum(s@.subrange(0, i as int)),
            decreases s@.len() - i,
        {
            proof {
                assert(s@.subrange(0, i + 1).drop_last() =~= s@.subrange(0, i as int));
                lemma_byte_sum_prefix(s@, i + 1);
            }
            ret = ret + s[i] as usize;
            i = i + 1;
        }
        proof {
            assert(s@.subrange(0, i as int) =~= s@);
        }
        ret
    }
}

/// Whether `a >= b` by `T`'s ordering.
pub open spec fn spec_ge<T: PartialOrd>(a: T, b: T) -> bool {
    a.is_ge(&b)
}

/// Whether `a <= b` by `T`'s ordering.
pub open spec fn spec_le<T: PartialOrd>(a: T, b: T) -> bool {
    a.is_le(&b)
}

/// The larger of two values of a partially ordered type: `a` unless `b` is
/// strictly greater or the two do not compare.
pub fn partial_max<T: PartialOrd>(a: T, b: T) -> (r: T)
    ensures
        T::obeys_partial_cmp_spec() ==> r == if spec_ge(a, b) {
            a
        } else {
            b
        },
{
    if a >= b {
        a
    } else {
        b
    }
}

/// The smaller of two values of a partially ordered type.
pub fn partial_min<T: PartialOrd>(a: T, b: T) -> (r: T)
    ensures
        T::obeys_partial_cmp_spec() ==> r == if spec_le(a, b) {
            a
        } else {
            b
        },
{
    if a <= b {
        a
    } else {
        b
    }
}

} // verus!
