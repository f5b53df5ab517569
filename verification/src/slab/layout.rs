//! Size and alignment of an allocation request.

use vstd::prelude::*;

verus! {

/// Whether `x` is a power of two.
pub open spec fn is_power_of_two(x: usize) -> bool {
    x != 0 && x & ((x - 1) as usize) == 0
}

/// The parameters handed to [`Layout::from_size_align`] are not a valid layout.
#[derive(Clone, Copy, Debug, PartialEq, Eq)]
pub struct LayoutError;

/// The shape of a block of memory: its size in bytes and the alignment of its
/// first byte.
///
/// The alignment is a power of two, and the size, rounded up to the
/// alignment, does not exceed `isize::MAX`.
#[derive(Clone, Copy, Debug, PartialEq, Eq)]
pub struct Layout {
    size: usize,
    align: usize,
}

impl Layout {
    #[verifier::type_invariant]
    spec fn inv(self) -> bool {
        Self::valid(self.size, self.align)
    }

    /// The pairs of size and alignment that describe a layout.
    pub open spec fn valid(size: usize, align: usize) -> bool {
        &&& is_power_of_two(align)
        &&& size <= isize::MAX - (align - 1)
    }

    /// The size in bytes.
    pub closed spec fn spec_size(&self) -> usize {
        self.size
    }

    /// The alignment in bytes.
    pub closed spec fn spec_align(&self) -> usize {
        self.align
    }

    /// Builds a layout, or reports that `align` is not a power of two or that
    /// `size` rounded up to `align` would exceed `isize::MAX`.
    pub fn from_size_align(size: usize, align: usize) -> (r: Result<Layout, LayoutError>)
        ensures
            r is Ok <==> Self::valid(size, align),
            r matches Ok(l) ==> l.size() == size && l.align() == align,
    {
        if align == 0 {
            return Err(LayoutError);
        }
        if align & (align - 1) != 0 {
            return Err(LayoutError);
        }
        let max = isize::MAX as usize;
        if align - 1 > max || size > max - (align - 1) {
            return Err(LayoutError);
        }
        Ok(Layout { size, align })
    }

    /// The size in bytes; rounded up to the alignment it fits in `isize`.
    #[verifier::when_used_as_spec(spec_size)]
    pub fn size(&self) -> (s: usize)
        ensures
            s == self.size(),
            Self::valid(s, self.align()),
    {
        proof {
            use_type_invariant(self);
        }
        self.size
    }

    /// The alignment in bytes: a power of two, so never zero.
    #[verifier::when_used_as_spec(spec_align)]
    pub fn align(&self) -> (a: usize)
        ensures
            a == self.align(),
            a > 0,
            is_power_of_two(a),
    {
        proof {
            use_type_invariant(self);
        }
        self.align
    }

}

} // verus!
