use lib::data_types::linked_list::LinkedList;
use lib::memory::addr::{PhysAddr, VirtAddr};
use lib::memory::allocation::region::Region;
use lib::memory::bitmap::Bitmap;
use lib::memory::heap::heap::Heap;
use lib::memory::heap::init;
use lib::memory::heap::math::{align_down, align_up, log2_of_power, next_power_of_two, prev_power_of_two};
use lib::memory::layout::{power_of_two_check, Layout};
use lib::memory::memory_descriptor::EFIMemoryDescriptor;
use lib::memory::physical_page_allocator::PhysicalPageAllocator;
use lib::memory::{get_memory_size, largest_usable_memory_region, BootInfo};

fn desc(memory_type: u32, start: u64, pages: u64) -> EFIMemoryDescriptor {
    EFIMemoryDescriptor {
        memory_type,
        pad: 0,
        physical_start: start,
        virtual_start: start,
        number_of_pages: pages,
        attribute: 0,
    }
}

#[test]
fn layout_needs_a_power_of_two_alignment() {
    assert!(Layout::from_size_align(8, 8).is_some());
    assert!(Layout::from_size_align(8, 3).is_none());
    assert!(Layout::from_size_align(8, 0).is_none());
    assert!(Layout::from_size_align(usize::MAX, 2).is_none());
    let l = Layout::from_size_align(24, 16).unwrap();
    assert_eq!(l.size(), 24);
    assert_eq!(l.align(), 16);
    assert!(power_of_two_check(64));
    assert!(!power_of_two_check(48));
}

#[test]
fn power_of_two_helpers() {
    assert_eq!(next_power_of_two(5), 8);
    assert_eq!(next_power_of_two(8), 8);
    assert_eq!(next_power_of_two(1), 1);
    assert_eq!(prev_power_of_two(5), 4);
    assert_eq!(prev_power_of_two(8), 8);
    assert_eq!(log2_of_power(4096), 12);
    assert_eq!(align_up(13, 8), 16);
    assert_eq!(align_up(16, 8), 16);
    assert_eq!(align_down(13, 4), 12);
}

#[test]
fn heap_hands_out_the_lowest_block_and_takes_it_back() {
    let mut heap: Heap<32> = init(VirtAddr(0x1000), 1);
    let small = Layout::from_size_align(8, 8).unwrap();
    let p = heap.allocate(small).expect("block");
    assert_eq!(p, 0x1000);
    let q = heap.allocate(small).expect("block");
    assert_eq!(q, 0x1008);
    heap.dealloc(q, small);
    heap.dealloc(p, small);
    let page = Layout::from_size_align(4096, 4096).unwrap();
    assert_eq!(heap.allocate(page), Ok(0x1000));
    assert_eq!(heap.allocate(small), Err(()));
}

#[test]
fn heap_without_memory_refuses() {
    let mut heap: Heap<32> = Heap::new();
    assert_eq!(heap.allocate(Layout::from_size_align(8, 8).unwrap()), Err(()));
    heap.add_region(Region::new(PhysAddr(0x4000), 64));
    assert_eq!(heap.allocate(Layout::from_size_align(64, 8).unwrap()), Ok(0x4000));
}

#[test]
fn bitmap_bits_are_most_significant_first() {
    let mut b = Bitmap::new(vec![0u8; 2], 2);
    assert_eq!(b.size(), 2);
    assert!(b.set(0, true));
    assert!(b.get(0));
    assert!(!b.get(1));
    assert!(b.set(9, true));
    assert!(b.get(9));
    assert!(!b.set(16, true));
    assert!(!b.get(16));
    assert!(b.set(0, false));
    assert!(!b.get(0));
}

#[test]
fn memory_map_sizes() {
    let info = BootInfo {
        memory_map: vec![desc(7, 0x0, 16), desc(2, 0x10000, 4), desc(7, 0x20000, 32), desc(7, 0x80000, 32)],
        kernel_end: 0x100000,
    };
    assert_eq!(get_memory_size(&info), (16 + 4 + 32 + 32) * 4096);
    let r = largest_usable_memory_region(&info);
    assert_eq!(r.start(), PhysAddr(0x20000));
    assert_eq!(r.size(), 32 * 4096);
}

#[test]
fn page_allocator_reads_the_memory_map() {
    let info = BootInfo { memory_map: vec![desc(7, 0, 1024)], kernel_end: 0x110000 };
    let mut a = PhysicalPageAllocator::new();
    assert_eq!(a.free_memory_mb(), 0);
    a.read_efi_memory_map(&info);
    assert_eq!(a.free_memory_mb(), 2);
    // the first 256 pages and the kernel's 17 pages are locked
    assert_eq!(a.alloc_page(), Some(PhysAddr(273 * 4096)));
    assert_eq!(a.alloc_page(), Some(PhysAddr(274 * 4096)));
}

#[test]
fn page_allocator_runs_of_pages() {
    let info = BootInfo { memory_map: vec![desc(7, 0, 1024)], kernel_end: 0x110000 };
    let mut a = PhysicalPageAllocator::new();
    a.read_efi_memory_map(&info);
    a.lock_pages(PhysAddr(273 * 4096), 1);
    assert_eq!(a.alloc_pages(Layout::from_size_align(3 * 4096, 4096).unwrap()), Some(PhysAddr(274 * 4096)));
    assert_eq!(a.alloc_page(), Some(PhysAddr(277 * 4096)));
}

#[test]
fn page_allocator_without_memory() {
    let mut a = PhysicalPageAllocator::new();
    assert_eq!(a.alloc_page(), None);
}

#[test]
fn linked_list_is_last_in_first_out() {
    let mut l = LinkedList::new();
    assert!(l.is_empty());
    l.push(0x1000);
    l.push(0x2000);
    assert!(!l.is_empty());
    let mut it = l.iter();
    assert_eq!(it.next(), Some(0x2000));
    assert_eq!(it.next(), Some(0x1000));
    assert_eq!(it.next(), None);
    assert_eq!(l.pop(), Some(0x2000));
    assert_eq!(l.pop(), Some(0x1000));
    assert_eq!(l.pop(), None);
}

#[test]
fn addresses_offset() {
    assert_eq!(PhysAddr(0x1000).offset(0x10), PhysAddr(0x1010));
    assert_eq!(VirtAddr(0x2000).offset(8), VirtAddr(0x2008));
}
