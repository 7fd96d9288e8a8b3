use vstd::prelude::*;

verus! {

/// One entry of the memory map that the firmware (EFI) hands over.
#[derive(Clone, Copy, Debug)]
pub struct EFIMemoryDescriptor {
    /// The kind of memory, as an EFI memory type number.
    pub memory_type: u32,
    /// Padding that keeps the layout of the firmware's entry.
    pub pad: u32,
    /// Where the region starts in physical memory.
    pub physical_start: u64,
    /// Where the region starts in virtual memory.
    pub virtual_start: u64,
    /// How many 4 KiB pages the region spans.
    pub number_of_pages: u64,
    /// Attribute bits of the region.
    pub attribute: u64,
}

/// The EFI memory types the kernel tells apart.
pub enum EfiMemoryType {
    /// Memory free for any use (EFI memory type 7).
    EfiConventionalMemory,
}

impl EfiMemoryType {
    /// The EFI number of the memory type.
    pub fn code(&self) -> (c: u32)
        ensures
            c == 7,
    {
        match self {
            EfiMemoryType::EfiConventionalMemory => 7,
        }
    }
}

impl EFIMemoryDescriptor {
    /// Whether the region is conventional memory, free for any use.
    pub fn is_usable(&self) -> (usable: bool)
        ensures
            usable == (self.memory_type == 7),
    {
        self.memory_type == EfiMemoryType::EfiConventionalMemory.code()
    }
}

} // verus!
