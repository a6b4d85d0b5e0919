use vstd::prelude::*;

verus! {

/// The firmware's type tag for free, general-purpose memory.
pub const CONVENTIONAL_MEMORY: u32 = 7;

/// One range of the firmware's physical memory map.
#[derive(Clone, Copy, PartialEq, Eq, Debug, Structural)]
pub struct MemoryDescriptor {
    pub ty: u32,
    pub physical_start: u64,
    pub virtual_start: u64,
    pub number_of_pages: u64,
    pub attribute: u64,
}

impl MemoryDescriptor {
    pub open spec fn is_conventional_spec(self) -> bool {
        self.ty == CONVENTIONAL_MEMORY
    }
}

/// Whether the range is free, general-purpose memory.
pub fn is_conventional(d: &MemoryDescriptor) -> (r: bool)
    ensures
        r == d.is_conventional_spec(),
{
    d.ty == CONVENTIONAL_MEMORY
}

} // verus!
