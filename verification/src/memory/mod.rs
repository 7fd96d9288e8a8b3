use vstd::prelude::*;
use crate::memory::addr::PhysAddr;
use crate::memory::allocation::region::Region;
use crate::memory::memory_descriptor::EFIMemoryDescriptor;

pub mod addr;
pub mod allocation;
pub mod bitmap;
pub mod global_allocator;
pub mod heap;
pub mod layout;
pub mod memory_descriptor;
pub mod paging;
pub mod physical_page_allocator;

verus! {

/// The size of a page of memory: 4 KiB.
pub const PAGE_SIZE: usize = 4096;

/// Where the kernel is loaded in physical memory: 1 MiB.
pub const KERNEL_PHYS_START: u64 = 0x100000;

/// How many pages the kernel heap spans: 64 MiB.
pub const HEAP_PAGES: usize = 1024 * 16;

/// What the boot loader tells the kernel about memory: the firmware's memory
/// map, and where the loaded kernel ends.
pub struct BootInfo {
    /// The entries of the memory map, in order.
    pub memory_map: Vec<EFIMemoryDescriptor>,
    /// The physical address just past the end of the kernel.
    pub kernel_end: u64,
}

/// Bytes of memory described by the first `n` entries of a memory map.
pub open spec fn memory_size_upto(map: Seq<EFIMemoryDescriptor>, n: nat) -> nat
    decreases n,
{
    if n == 0 {
        0
    } else {
        memory_size_upto(map, (n - 1) as nat) + (map[n - 1].number_of_pages * PAGE_SIZE) as nat
    }
}

/// The size in bytes of the region an entry describes.
pub open spec fn region_bytes(d: EFIMemoryDescriptor) -> int {
    d.number_of_pages * PAGE_SIZE
}

/// The index of the first usable entry among the first `n` entries whose
/// region is larger than that of every usable entry before it and at least as
/// large as that of every usable entry after it; `None` when no usable entry
/// has a nonempty region.
pub open spec fn largest_usable_index(map: Seq<EFIMemoryDescriptor>, n: nat) -> Option<int>
    decreases n,
{
    if n == 0 {
        None
    } else {
        let prev = largest_usable_index(map, (n - 1) as nat);
        let d = map[n - 1];
        let best = match prev {
            Some(i) => region_bytes(map[i]),
            None => 0,
        };
        if d.memory_type == 7 && region_bytes(d) > best {
            Some(n - 1)
        } else {
            prev
        }
    }
}

/// The total size of memory described by the memory map, in bytes.
pub fn get_memory_size(boot_info: &BootInfo) -> (total: usize)
    requires
        memory_size_upto(boot_info.memory_map@, boot_info.memory_map@.len()) <= usize::MAX,
    ensures
        total == memory_size_upto(boot_info.memory_map@, boot_info.memory_map@.len()),
{
    let mut total_memory: usize = 0;
    let mut i: usize = 0;
    let ghost map = boot_info.memory_map@;
    proof {
        lemma_memory_size_monotone(map, map.len());
    }
    while i < boot_info.memory_map.len()
        invariant
            map == boot_info.memory_map@,
            i <= map.len(),
            total_memory == memory_size_upto(map, i as nat),
            forall|j: nat| j <= map.len() ==> #[trigger] memory_size_upto(map, j) <= memory_size_upto(map, map.len()),
            memory_size_upto(map, map.len()) <= usize::MAX,
        decreases map.len() - i,
    {
        let descriptor = &boot_info.memory_map[i];
        proof {
            assert(memory_size_upto(map, (i + 1) as nat) <= usize::MAX);
        }
        total_memory = total_memory + descriptor.number_of_pages as usize * PAGE_SIZE;
        i = i + 1;
    }
    total_memory
}

proof fn lemma_memory_size_monotone(map: Seq<EFIMemoryDescriptor>, n: nat)
    ensures
        forall|j: nat| j <= n ==> #[trigger] memory_size_upto(map, j) <= memory_size_upto(map, n),
    decreases n,
{
    if n > 0 {
        lemma_memory_size_monotone(map, (n - 1) as nat);
    }
}

/// The largest region of usable memory in the memory map: the first of the
/// largest ones, or an empty region at address 0 when there is none.
pub fn largest_usable_memory_region(boot_info: &BootInfo) -> (region: Region)
    requires
        forall|i: int|
            0 <= i < boot_info.memory_map@.len() ==> #[trigger] region_bytes(boot_info.memory_map@[i])
                <= u64::MAX,
        forall|i: int|
            0 <= i < boot_info.memory_map@.len() ==> #[trigger] region_bytes(boot_info.memory_map@[i])
                <= usize::MAX,
    ensures
        ({
            match largest_usable_index(boot_info.memory_map@, boot_info.memory_map@.len()) {
                Some(i) => region.spec_start() == PhysAddr(boot_info.memory_map@[i].physical_start)
                    && region.spec_size() == region_bytes(boot_info.memory_map@[i]),
                None => region.spec_start() == PhysAddr(0) && region.spec_size() == 0,
            }
        }),
{
    let ghost map = boot_info.memory_map@;
    let mut largest_region_start: u64 = 0;
    let mut largest_region_size: usize = 0;
    let mut i: usize = 0;
    while i < boot_info.memory_map.len()
        invariant
            map == boot_info.memory_map@,
            i <= map.len(),
            forall|j: int| 0 <= j < map.len() ==> #[trigger] region_bytes(map[j]) <= u64::MAX,
            forall|j: int| 0 <= j < map.len() ==> #[trigger] region_bytes(map[j]) <= usize::MAX,
            match largest_usable_index(map, i as nat) {
                Some(j) => 0 <= j < i && largest_region_start == map[j].physical_start
                    && largest_region_size == region_bytes(map[j]),
                None => largest_region_start == 0 && largest_region_size == 0,
            },
        decreases map.len() - i,
    {
        let descriptor = &boot_info.memory_map[i];
        if descriptor.is_usable() {
            proof {
                assert(region_bytes(map[i as int]) <= u64::MAX);
            }
            let region_start = descriptor.physical_start;
            let region_size = (descriptor.number_of_pages * PAGE_SIZE as u64) as usize;
            if region_size > largest_region_size {
                largest_region_size = region_size;
                largest_region_start = region_start;
            }
        }
        i = i + 1;
    }
    Region::new(PhysAddr(largest_region_start), largest_region_size)
}

} // verus!
