//! Pages that hand out equal-sized objects, and the links that chain them.

use super::bitfield::all_free_spec;
use super::bitfield::bit_is_set;
use super::bitfield::first_fit_spec;
use super::bitfield::free_below;
use super::bitfield::free_count;
use super::bitfield::is_full_spec;
use super::bitfield::lemma_free_below_word;
use super::bitfield::total_bits;
use super::bitfield::with_bit_cleared;
use super::bitfield::with_bit_set;
use super::bitfield::Bitfield;
use super::layout::Layout;
use super::AllocationError;
use super::OBJECT_PAGE_METADATA_OVERHEAD;
use super::OBJECT_PAGE_SIZE;
use vstd::prelude::*;

verus! {

/// A link from one page to another that owns nothing: either empty, or the
/// handle of a page in the arena that holds the pages of a list.
#[derive(Clone, Copy, Debug)]
pub struct Rawlink {
    p: Option<usize>,
}

impl View for Rawlink {
    type V = Option<usize>;

    closed spec fn view(&self) -> Option<usize> {
        self.p
    }
}

impl Default for Rawlink {
    fn default() -> (l: Rawlink)
        ensures
            l@ is None,
    {
        Rawlink { p: None }
    }
}

impl Rawlink {
    /// The empty link.
    pub fn none() -> (l: Rawlink)
        ensures
            l@ is None,
    {
        Rawlink { p: None }
    }

    /// The link to the page with handle `n`.
    pub fn some(n: usize) -> (l: Rawlink)
        ensures
            l@ == Some(n),
    {
        Rawlink { p: Some(n) }
    }

    /// The handle that the link holds, if any.
    pub fn resolve(&self) -> (r: Option<usize>)
        ensures
            r == self@,
    {
        self.p
    }

    /// Empties the link and returns what it held.
    pub fn take(&mut self) -> (l: Rawlink)
        ensures
            l@ == old(self)@,
            final(self)@ is None,
    {
        let held = Rawlink { p: self.p };
        self.p = None;
        held
    }
}

/// Offset of the address `ptr` within its page, for pages of `size` bytes.
pub open spec fn page_offset(ptr: usize, size: usize) -> usize {
    ptr & ((size - 1) as usize)
}

/// What every page satisfies: it starts at a multiple of its size, not at
/// address zero, and ends within the address space.
pub open spec fn valid_page(base: usize, size: usize, bits: Seq<u64>) -> bool {
    &&& size > 0
    &&& base > 0
    &&& base % size == 0
    &&& base + size <= usize::MAX
    &&& bits.len() == 8
}

/// Whether `p` is a valid page.
pub open spec fn page_wf<P: AllocablePage>(p: &P) -> bool {
    valid_page(p.spec_base(), P::SIZE, p.spec_bits())
}

/// The outcome of giving the address `ptr` back to a page whose bitmap is
/// `bits`, as an object of `size` bytes.
pub open spec fn deallocate_spec(bits: Seq<u64>, offset: int, size: int) -> Result<
    int,
    AllocationError,
> {
    if size == 0 || offset % size != 0 {
        Err(AllocationError::InvalidLayout)
    } else if offset / size >= total_bits(bits) || !bit_is_set(bits, offset / size) {
        Err(AllocationError::NotAllocated)
    } else {
        Ok(offset / size)
    }
}

/// A page from which objects of one size are allocated.
///
/// An implementation gives access to the metadata of the page: its bitmap
/// and the two links that place it in a list. The page lies at `base_addr`,
/// a multiple of `SIZE`.
pub trait AllocablePage: Sized {
    /// The size of the page in bytes, which is also its alignment.
    const SIZE: usize;

    /// The address of the first byte of the page.
    spec fn spec_base(&self) -> usize;

    /// The words of the bitmap.
    spec fn spec_bits(&self) -> Seq<u64>;

    /// The handle of the page before this one in its list.
    spec fn spec_prev(&self) -> Option<usize>;

    /// The handle of the page after this one in its list.
    spec fn spec_next(&self) -> Option<usize>;

    /// The address of the first byte of the page.
    fn base_addr(&self) -> (a: usize)
        ensures
            a == self.spec_base(),
    ;

    /// The bitmap.
    fn bitfield(&self) -> (b: &[u64; 8])
        ensures
            b@ == self.spec_bits(),
    ;

    /// The bitmap, for writing.
    fn bitfield_mut(&mut self) -> (b: &mut [u64; 8])
        ensures
            b@ == old(self).spec_bits(),
            final(self).spec_bits() == final(b)@,
            final(self).spec_base() == old(self).spec_base(),
            final(self).spec_prev() == old(self).spec_prev(),
            final(self).spec_next() == old(self).spec_next(),
    ;

    /// The link to the previous page, for writing.
    fn prev(&mut self) -> (l: &mut Rawlink)
        ensures
            l@ == old(self).spec_prev(),
            final(self).spec_prev() == final(l)@,
            final(self).spec_next() == old(self).spec_next(),
            final(self).spec_base() == old(self).spec_base(),
            final(self).spec_bits() == old(self).spec_bits(),
    ;

    /// The link to the next page, for writing.
    fn next(&mut self) -> (l: &mut Rawlink)
        ensures
            l@ == old(self).spec_next(),
            final(self).spec_next() == final(l)@,
            final(self).spec_prev() == old(self).spec_prev(),
            final(self).spec_base() == old(self).spec_base(),
            final(self).spec_bits() == old(self).spec_bits(),
    ;

    /// The link to the previous page.
    fn prev_link(&self) -> (l: Rawlink)
        ensures
            l@ == self.spec_prev(),
    ;

    /// The link to the next page.
    fn next_link(&self) -> (l: Rawlink)
        ensures
            l@ == self.spec_next(),
    ;

    /// Finds a free slot for `layout`, and returns its index and its address.
    fn first_fit(&self, layout: Layout) -> (r: Option<(usize, usize)>)
        requires
            valid_page(self.spec_base(), Self::SIZE, self.spec_bits()),
        ensures
            match r {
                Some((idx, addr)) => first_fit_spec(
                    self.spec_bits(),
                    self.spec_base() as int,
                    layout.size() as int,
                    layout.align() as int,
                    Self::SIZE as int,
                ) == Some((idx as int, addr as int)),
                None => first_fit_spec(
                    self.spec_bits(),
                    self.spec_base() as int,
                    layout.size() as int,
                    layout.align() as int,
                    Self::SIZE as int,
                ) is None,
            },
            r matches Some((idx, addr)) ==> {
                &&& idx < total_bits(self.spec_bits())
                &&& !bit_is_set(self.spec_bits(), idx as int)
                &&& addr == self.spec_base() + idx * layout.size()
                &&& addr % layout.align() == 0
                &&& self.spec_base() <= addr <= self.spec_base() + Self::SIZE
                    - OBJECT_PAGE_METADATA_OVERHEAD - layout.size()
            },
    {
        let base_addr = self.base_addr();
        self.bitfield().first_fit(base_addr, layout, Self::SIZE)
    }

    /// Allocates an object of `layout` in this page and returns its address,
    /// or returns 0 when the page has no free slot that fits.
    ///
    /// The search and the marking are two steps: callers serialise
    /// allocations from one page.
    fn allocate(&mut self, layout: Layout) -> (addr: usize)
        requires
            valid_page(old(self).spec_base(), Self::SIZE, old(self).spec_bits()),
        ensures
            final(self).spec_base() == old(self).spec_base(),
            final(self).spec_prev() == old(self).spec_prev(),
            final(self).spec_next() == old(self).spec_next(),
            match first_fit_spec(
                old(self).spec_bits(),
                old(self).spec_base() as int,
                layout.size() as int,
                layout.align() as int,
                Self::SIZE as int,
            ) {
                Some((idx, a)) => addr == a && final(self).spec_bits() == with_bit_set(
                    old(self).spec_bits(),
                    idx,
                ),
                None => addr == 0 && final(self).spec_bits() == old(self).spec_bits(),
            },
            addr != 0 ==> {
                &&& addr % layout.align() == 0
                &&& old(self).spec_base() <= addr <= old(self).spec_base() + Self::SIZE
                    - OBJECT_PAGE_METADATA_OVERHEAD - layout.size()
            },
    {
        match self.first_fit(layout) {
            Some((idx, addr)) => {
                self.bitfield_mut().set_bit(idx);
                addr
            },
            None => 0,
        }
    }

    /// Whether the page has no free slot.
    fn is_full(&self) -> (r: bool)
        ensures
            r == is_full_spec(self.spec_bits()),
    {
        self.bitfield().is_full()
    }

    /// Whether none of the first `relevant_bits` slots is allocated.
    fn is_empty(&self, relevant_bits: usize) -> (r: bool)
        ensures
            r == all_free_spec(self.spec_bits(), relevant_bits as int),
    {
        self.bitfield().all_free(relevant_bits)
    }

    /// Gives the object at address `ptr` back to the page.
    ///
    /// A pointer that does not lie at a multiple of the object size within
    /// its page, or whose slot is not allocated, is an error, and the page
    /// stays as it was.
    fn deallocate(&mut self, ptr: usize, layout: Layout) -> (r: Result<(), AllocationError>)
        requires
            valid_page(old(self).spec_base(), Self::SIZE, old(self).spec_bits()),
        ensures
            final(self).spec_base() == old(self).spec_base(),
            final(self).spec_prev() == old(self).spec_prev(),
            final(self).spec_next() == old(self).spec_next(),
            match deallocate_spec(
                old(self).spec_bits(),
                page_offset(ptr, Self::SIZE) as int,
                layout.size() as int,
            ) {
                Ok(idx) => r is Ok && final(self).spec_bits() == with_bit_cleared(
                    old(self).spec_bits(),
                    idx,
                ),
                Err(e) => r == Err::<(), AllocationError>(e) && final(self).spec_bits() == old(
                    self,
                ).spec_bits(),
            },
    {
        let page_offset = ptr & (Self::SIZE - 1);
        let size = layout.size();
        if size == 0 || page_offset % size != 0 {
            return Err(AllocationError::InvalidLayout);
        }
        let idx = page_offset / size;
        if idx >= self.bitfield().len() * 64 || !self.bitfield().is_allocated(idx) {
            return Err(AllocationError::NotAllocated);
        }
        self.bitfield_mut().clear_bit(idx);
        Ok(())
    }

    /// Number of slots of the page that are not allocated.
    fn free_obj_count(&self) -> (count: usize)
        requires
            valid_page(self.spec_base(), Self::SIZE, self.spec_bits()),
        ensures
            count == free_count(self.spec_bits()),
    {
        let bits = self.bitfield();
        let mut free_obj_count: usize = 0;
        let mut w: usize = 0;
        while w < 8
            invariant
                w <= 8,
                bits@.len() == 8,
                free_obj_count == free_below(bits@, (w * 64) as nat),
                free_obj_count <= w * 64,
            decreases 8 - w,
        {
            let bitval = bits[w];
            proof {
                lemma_free_below_word(bits@, w as int, 64);
            }
            free_obj_count += bitval.count_zeros() as usize;
            w += 1;
        }
        free_obj_count
    }
}

/// A page of `OBJECT_PAGE_SIZE` bytes: the record of where it lies, which of
/// its slots are allocated, and its place in a list.
#[derive(Debug)]
pub struct ObjectPage {
    /// Address of the first byte of the page.
    base: usize,
    /// Next page in the list that holds this one.
    next: Rawlink,
    /// Previous page in the list that holds this one.
    prev: Rawlink,
    /// One bit per slot of the data area; a set bit marks an allocated slot.
    bitfield: [u64; 8],
}

impl ObjectPage {
    /// The addresses at which an object page can lie.
    pub open spec fn valid_base(base_addr: usize) -> bool {
        &&& base_addr > 0
        &&& base_addr % OBJECT_PAGE_SIZE == 0
        &&& base_addr + OBJECT_PAGE_SIZE <= usize::MAX
    }

    /// The record of the page at `base_addr`, in no list and with every slot
    /// free, or nothing if no page can lie at that address.
    pub fn new(base_addr: usize) -> (r: Option<ObjectPage>)
        ensures
            r is Some <==> Self::valid_base(base_addr),
            r matches Some(p) ==> {
                &&& page_wf(&p)
                &&& p.spec_base() == base_addr
                &&& p.spec_prev() is None
                &&& p.spec_next() is None
                &&& p.spec_bits() == Seq::new(8, |i: int| 0u64)
            },
    {
        if base_addr == 0 || base_addr % OBJECT_PAGE_SIZE != 0 || base_addr > usize::MAX
            - OBJECT_PAGE_SIZE {
            return None;
        }
        let p = ObjectPage {
            base: base_addr,
            next: Rawlink::none(),
            prev: Rawlink::none(),
            bitfield: [0u64; 8],
        };
        assert(p.bitfield@ =~= Seq::new(8, |i: int| 0u64));
        Some(p)
    }
}

impl AllocablePage for ObjectPage {
    const SIZE: usize = OBJECT_PAGE_SIZE;

    closed spec fn spec_base(&self) -> usize {
        self.base
    }

    closed spec fn spec_bits(&self) -> Seq<u64> {
        self.bitfield@
    }

    closed spec fn spec_prev(&self) -> Option<usize> {
        self.prev@
    }

    closed spec fn spec_next(&self) -> Option<usize> {
        self.next@
    }

    fn base_addr(&self) -> (a: usize) {
        self.base
    }

    fn bitfield(&self) -> (b: &[u64; 8]) {
        &self.bitfield
    }

    fn bitfield_mut(&mut self) -> (b: &mut [u64; 8]) {
        &mut self.bitfield
    }

    fn prev(&mut self) -> (l: &mut Rawlink) {
        &mut self.prev
    }

    fn next(&mut self) -> (l: &mut Rawlink) {
        &mut self.next
    }

    fn prev_link(&self) -> (l: Rawlink) {
        self.prev
    }

    fn next_link(&self) -> (l: Rawlink) {
        self.next
    }
}

/// An object page has `OBJECT_PAGE_SIZE` bytes.
pub proof fn lemma_object_page_size()
    ensures
        ObjectPage::SIZE == OBJECT_PAGE_SIZE,
{
}

/// Within an object page the offset of an address is its remainder by the
/// page size.
pub proof fn lemma_object_page_offset(ptr: usize)
    ensures
        page_offset(ptr, OBJECT_PAGE_SIZE) == ptr % OBJECT_PAGE_SIZE,
{
    assert(ptr & 4095 == ptr % 4096) by (bit_vector);
}

} // verus!
