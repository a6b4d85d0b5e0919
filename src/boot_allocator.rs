use crate::frame_allocator::PAGE_SIZE;
use crate::memory_map::{MemoryDescriptor, CONVENTIONAL_MEMORY};
use vstd::prelude::*;

verus! {

/// Every conventional range ends within the 64-bit address space.
pub open spec fn ranges_fit(mmap: Seq<MemoryDescriptor>) -> bool {
    forall|i: int|
        0 <= i < mmap.len() && #[trigger] mmap[i].is_conventional_spec() ==> mmap[i].physical_start
            + mmap[i].number_of_pages * PAGE_SIZE <= u64::MAX
}

/// `i` is the first conventional range with at least `n` pages left.
pub open spec fn is_first_usable(mmap: Seq<MemoryDescriptor>, n: u64, i: int) -> bool {
    &&& 0 <= i < mmap.len()
    &&& mmap[i].is_conventional_spec() && mmap[i].number_of_pages >= n
    &&& forall|j: int|
        0 <= j < i ==> !(#[trigger] mmap[j].is_conventional_spec() && mmap[j].number_of_pages >= n)
}

/// The range `d` with its first `n` pages taken away.
pub open spec fn shrunk(d: MemoryDescriptor, n: u64) -> MemoryDescriptor {
    MemoryDescriptor {
        physical_start: (d.physical_start + n * PAGE_SIZE) as u64,
        number_of_pages: (d.number_of_pages - n) as u64,
        ..d
    }
}

/// A bump allocator for the boot stage: it takes frames from the front of the firmware's
/// conventional ranges and never gives them back.
pub struct Allocator {
    mmap: Vec<MemoryDescriptor>,
}

impl View for Allocator {
    type V = Seq<MemoryDescriptor>;

    closed spec fn view(&self) -> Seq<MemoryDescriptor> {
        self.mmap@
    }
}

impl Allocator {
    pub fn new(mmap: Vec<MemoryDescriptor>) -> (r: Self)
        requires
            ranges_fit(mmap@),
        ensures
            r@ == mmap@,
            ranges_fit(r@),
    {
        Allocator { mmap }
    }

    /// The memory map as it stands now.
    pub fn into_inner(self) -> (r: Vec<MemoryDescriptor>)
        ensures
            r@ == self@,
    {
        self.mmap
    }

    /// Takes `n` pages from the front of the first conventional range that still has that
    /// many, and returns their start; `None` when no range has.
    pub fn allocate_frames(&mut self, n: u64) -> (r: Option<u64>)
        requires
            ranges_fit(old(self)@),
        ensures
            ranges_fit(final(self)@),
            match r {
                None => final(self)@ == old(self)@ && forall|j: int|
                    0 <= j < old(self)@.len() ==> !(#[trigger] old(self)@[j].is_conventional_spec()
                        && old(self)@[j].number_of_pages >= n),
                Some(a) => exists|i: int|
                    is_first_usable(old(self)@, n, i) && a == old(self)@[i].physical_start
                        && final(self)@ == old(self)@.update(i, shrunk(old(self)@[i], n)),
            },
    {
        let mut i: usize = 0;
        while i < self.mmap.len()
            invariant
                self@ == old(self)@,
                ranges_fit(self@),
                i <= self@.len(),
                forall|j: int|
                    0 <= j < i ==> !(#[trigger] self@[j].is_conventional_spec()
                        && self@[j].number_of_pages >= n),
            decreases self@.len() - i,
        {
            if Self::is_usable_memory(&self.mmap[i]) {
                let mut d = self.mmap[i];
                if let Some(a) = Self::try_alloc_from(&mut d, n) {
                    self.mmap.set(i, d);
                    proof {
                        assert(is_first_usable(old(self)@, n, i as int));
                        assert(self@ == old(self)@.update(i as int, shrunk(old(self)@[i as int], n)));
                        let s = old(self)@[i as int];
                        assert(s.physical_start + s.number_of_pages * PAGE_SIZE <= u64::MAX);
                        assert((s.number_of_pages - n) * PAGE_SIZE + n * PAGE_SIZE == s.number_of_pages
                            * PAGE_SIZE) by (nonlinear_arith);
                        assert(n * PAGE_SIZE >= 0) by (nonlinear_arith);
                        assert forall|j: int|
                            0 <= j < self@.len() && #[trigger] self@[j].is_conventional_spec() implies
                            self@[j].physical_start + self@[j].number_of_pages * PAGE_SIZE <= u64::MAX by {
                            if j != i {
                                assert(old(self)@[j].is_conventional_spec());
                            }
                        }
                    }
                    return Some(a);
                }
            }
            i += 1;
        }
        None
    }

    /// Takes one frame.
    pub fn allocate_frame(&mut self) -> (r: Option<u64>)
        requires
            ranges_fit(old(self)@),
        ensures
            ranges_fit(final(self)@),
            match r {
                None => final(self)@ == old(self)@ && forall|j: int|
                    0 <= j < old(self)@.len() ==> !(#[trigger] old(self)@[j].is_conventional_spec()
                        && old(self)@[j].number_of_pages >= 1),
                Some(a) => exists|i: int|
                    is_first_usable(old(self)@, 1, i) && a == old(self)@[i].physical_start
                        && final(self)@ == old(self)@.update(i, shrunk(old(self)@[i], 1)),
            },
    {
        self.allocate_frames(1)
    }

    fn try_alloc_from(d: &mut MemoryDescriptor, n: u64) -> (r: Option<u64>)
        requires
            old(d).physical_start + old(d).number_of_pages * PAGE_SIZE <= u64::MAX,
        ensures
            match r {
                None => *final(d) == *old(d) && old(d).number_of_pages < n,
                Some(a) => old(d).number_of_pages >= n && a == old(d).physical_start
                    && *final(d) == shrunk(*old(d), n),
            },
    {
        if d.number_of_pages >= n {
            Some(Self::alloc_from(d, n))
        } else {
            None
        }
    }

    fn alloc_from(d: &mut MemoryDescriptor, n: u64) -> (r: u64)
        requires
            old(d).number_of_pages >= n,
            old(d).physical_start + old(d).number_of_pages * PAGE_SIZE <= u64::MAX,
        ensures
            r == old(d).physical_start,
            *final(d) == shrunk(*old(d), n),
    {
        proof {
            assert(n * PAGE_SIZE <= d.number_of_pages * PAGE_SIZE) by (nonlinear_arith)
                requires n <= d.number_of_pages;
        }
        let bytes = n * PAGE_SIZE;
        let f = d.physical_start;
        d.number_of_pages = d.number_of_pages - n;
        d.physical_start = d.physical_start + bytes;
        f
    }

    /// Whether the firmware marks the range as free, general-purpose memory.
    pub fn is_usable_memory(d: &MemoryDescriptor) -> (r: bool)
        ensures
            r == d.is_conventional_spec(),
    {
        d.ty == CONVENTIONAL_MEMORY
    }
}

} // verus!
