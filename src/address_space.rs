use crate::frame_allocator::{
    allocated_at, covers, is_first_fit, none_fits, FrameAllocator, has_room_for,
};
use vstd::prelude::*;

verus! {

/// Entries in one top-level page table.
pub const ENTRY_COUNT: usize = 512;

/// Entries below this slot map user space; they start out unused in every address space.
pub const USER_SLOTS: usize = 510;

/// The slot that maps the table onto itself, so that it can be edited as ordinary memory.
pub const RECURSIVE_SLOT: usize = 510;

/// The slot that maps the kernel, shared by every address space.
pub const KERNEL_SLOT: usize = 511;

/// The bits of an entry that hold the physical frame address.
pub const ADDR_MASK: u64 = 0x000f_ffff_ffff_f000;

/// The value of an entry that maps nothing.
pub const UNUSED_ENTRY: u64 = 0;

/// An entry pointing at `frame`, with the flag bits of `flags_from`.
pub open spec fn entry_for_frame(frame: u64, flags_from: u64) -> u64 {
    (frame & ADDR_MASK) | (flags_from & !ADDR_MASK)
}

/// The top-level table of a new address space, built while `current` is active: user slots
/// unused, the recursive slot pointing at `frame` itself, and the kernel slot copied.
pub open spec fn fresh_root(current: Seq<u64>, frame: u64) -> Seq<u64> {
    Seq::new(
        ENTRY_COUNT as nat,
        |i: int|
            if i < USER_SLOTS {
                UNUSED_ENTRY
            } else if i == RECURSIVE_SLOT {
                entry_for_frame(frame, current[RECURSIVE_SLOT as int])
            } else {
                current[KERNEL_SLOT as int]
            },
    )
}

/// Every user slot of `t` is unused.
pub open spec fn user_unmapped(t: Seq<u64>) -> bool {
    forall|i: int| 0 <= i < USER_SLOTS ==> #[trigger] t[i] == UNUSED_ENTRY
}

/// The image of one top-level page table.
pub struct PageTable {
    entries: Vec<u64>,
}

impl View for PageTable {
    type V = Seq<u64>;

    closed spec fn view(&self) -> Seq<u64> {
        self.entries@
    }
}

impl PageTable {
    pub open spec fn wf(&self) -> bool {
        self@.len() == ENTRY_COUNT
    }

    /// A table from its entries; `None` unless there are exactly `ENTRY_COUNT` of them.
    pub fn from_entries(entries: Vec<u64>) -> (r: Option<Self>)
        ensures
            match r {
                None => entries@.len() != ENTRY_COUNT,
                Some(t) => t@ == entries@ && t.wf(),
            },
    {
        if entries.len() == ENTRY_COUNT {
            Some(PageTable { entries })
        } else {
            None
        }
    }

    /// The entries, slot by slot.
    pub fn entries(&self) -> (r: &Vec<u64>)
        ensures
            r@ == self@,
    {
        &self.entries
    }

    /// The entry at `i`.
    pub fn entry(&self, i: usize) -> (r: u64)
        requires
            i < self@.len(),
        ensures
            r == self@[i as int],
    {
        self.entries[i]
    }

    /// Marks every user slot unused and leaves the others as they are.
    pub fn unmap_all_user_regions(&mut self)
        requires
            old(self).wf(),
        ensures
            final(self).wf(),
            user_unmapped(final(self)@),
            forall|i: int| USER_SLOTS <= i < ENTRY_COUNT ==> #[trigger] final(self)@[i] == old(self)@[i],
    {
        let mut i: usize = 0;
        while i < USER_SLOTS
            invariant
                i <= USER_SLOTS,
                self@.len() == ENTRY_COUNT,
                forall|j: int| 0 <= j < i ==> #[trigger] self@[j] == UNUSED_ENTRY,
                forall|j: int| i <= j < ENTRY_COUNT ==> #[trigger] self@[j] == old(self)@[j],
            decreases USER_SLOTS - i,
        {
            self.entries.set(i, UNUSED_ENTRY);
            i += 1;
        }
    }

    /// Whether every user slot is unused.
    pub fn user_region_is_not_mapped(&self) -> (r: bool)
        requires
            self.wf(),
        ensures
            r == user_unmapped(self@),
    {
        let mut i: usize = 0;
        while i < USER_SLOTS
            invariant
                i <= USER_SLOTS,
                self@.len() == ENTRY_COUNT,
                forall|j: int| 0 <= j < i ==> #[trigger] self@[j] == UNUSED_ENTRY,
            decreases USER_SLOTS - i,
        {
            if self.entries[i] != UNUSED_ENTRY {
                return false;
            }
            i += 1;
        }
        true
    }
}

/// Builds the top-level table for a new address space whose root is `frame`, from the
/// currently active table `current`.
pub fn init_pml4(current: &PageTable, frame: u64) -> (r: PageTable)
    requires
        current.wf(),
    ensures
        r.wf(),
        r@ == fresh_root(current@, frame),
{
    let mut entries: Vec<u64> = Vec::new();
    let mut i: usize = 0;
    while i < USER_SLOTS
        invariant
            i <= USER_SLOTS,
            entries@.len() == i,
            forall|j: int| 0 <= j < i ==> #[trigger] entries@[j] == UNUSED_ENTRY,
        decreases USER_SLOTS - i,
    {
        entries.push(UNUSED_ENTRY);
        i += 1;
    }
    let flags_from = current.entry(RECURSIVE_SLOT);
    entries.push((frame & ADDR_MASK) | (flags_from & !ADDR_MASK));
    entries.push(current.entry(KERNEL_SLOT));
    let r = PageTable { entries };
    assert(r@ =~= fresh_root(current@, frame));
    r
}

/// Takes a frame for a new address space and builds its top-level table from `current`.
/// Returns the frame and the table to be written into it, or `None` when no frame is free.
pub fn create_new_pml4(frames: &mut FrameAllocator, current: &PageTable) -> (r: Option<(u64, PageTable)>)
    requires
        old(frames).wf(),
        has_room_for(old(frames)@, 1),
        current.wf(),
    ensures
        final(frames).wf(),
        forall|a: int| covers(final(frames)@, a) == covers(old(frames)@, a),
        match r {
            None => none_fits(old(frames)@, 1) && final(frames)@ == old(frames)@,
            Some((root, table)) => {
                &&& exists|i: int|
                    is_first_fit(old(frames)@, 1, i) && root == old(frames)@[i].start
                        && final(frames)@ == allocated_at(old(frames)@, i, 1)
                &&& table.wf()
                &&& table@ == fresh_root(current@, root)
            },
        },
{
    match frames.allocate_frame() {
        None => None,
        Some(frame) => Some((frame, init_pml4(current, frame))),
    }
}

/// Address spaces do not see each other: whatever either active table mapped, the tables
/// built for two new address spaces both have every user slot unused.
pub proof fn lemma_fresh_roots_isolated(
    current_a: Seq<u64>,
    frame_a: u64,
    current_b: Seq<u64>,
    frame_b: u64,
)
    requires
        current_a.len() == ENTRY_COUNT,
        current_b.len() == ENTRY_COUNT,
    ensures
        user_unmapped(fresh_root(current_a, frame_a)),
        user_unmapped(fresh_root(current_b, frame_b)),
        forall|i: int|
            0 <= i < USER_SLOTS ==> #[trigger] fresh_root(current_a, frame_a)[i] == fresh_root(
                current_b,
                frame_b,
            )[i],
{
}

} // verus!
