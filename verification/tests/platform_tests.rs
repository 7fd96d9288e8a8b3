use lib::apic::enable_apic_mode;
use lib::apic::ioapic::IoApic;
use lib::apic::lapic::Lapic;
use lib::apic::Apic;
use lib::fs::disk::Disk;
use lib::fs::fat32::fat32_driver::FatDriver;
use lib::memory::addr::VirtAddr;
use lib::memory::paging::table::{PageEntry, TableLevel};
use lib::memory::addr::PhysAddr;
use lib::memory::paging::page_table_manager::PageTableManager;
use lib::memory::paging::table::{MapError, PageEntryFlags, PageTablePtr, PageTables};
use lib::fs::fat32::DirectoryEntry;
use lib::fs::node::VfsEntry;

fn put32(d: &mut Vec<u8>, off: usize, v: u32) {
    d[off] = v as u8;
    d[off + 1] = (v >> 8) as u8;
    d[off + 2] = (v >> 16) as u8;
    d[off + 3] = (v >> 24) as u8;
}

fn image() -> Vec<u8> {
    let mut d = vec![0u8; 64 * 512];
    d[12] = 0x02;
    d[13] = 1;
    d[14] = 1;
    d[16] = 1;
    d[32] = 64;
    d[36] = 1;
    d[44] = 2;
    put32(&mut d, 67, 0xCAFE_F00D);
    put32(&mut d, 512, 0x0FFF_FFF8);
    put32(&mut d, 516, 0x0FFF_FFFF);
    put32(&mut d, 520, 0x0FFF_FFFF);
    d
}

#[test]
fn fat32_driver_mounts_and_creates_entries() {
    let mut drv = FatDriver::mount(Disk::new(image()), 0, 64);
    assert_eq!(drv.volume_id, 0xCAFE_F00D);
    assert_eq!(drv.fs.total_clusters, 62);
    assert!(!drv.file_exists("/a.txt"));
    assert_eq!(drv.size("/a.txt"), None);
    assert!(drv.get_dir_entries(2).is_empty());
    drv.write_file("/a.txt", b"abc", true);
    let root = drv.get_dir_entries(2);
    assert_eq!(root.len(), 1);
    assert_eq!(&root[0].entry.name, b"/a      txt");
    assert_eq!(root[0].get_cluster(), 2);
}

#[test]
fn fat32_long_name_entries() {
    let drv = FatDriver::mount(Disk::new(image()), 0, 64);
    let entries = drv.create_lfn_entries("a_rather_long_file_name.txt");
    assert_eq!(entries.len(), 3);
    assert_eq!(drv.create_short_filename("notes.md"), *b"notes   md ");
    assert!(drv.create_lfn_entries("").is_empty());
}

#[test]
fn lapic_registers() {
    let l = Lapic::new(0xFEE0_0000);
    assert_eq!(l.register_address(0xB0), 0xFEE0_00B0);
    assert_eq!(l.eoi(), (0xB0, 0));
    let writes = l.init(0xFF);
    assert!(writes.contains(&(0xF0, 0x1FF)));
}

#[test]
fn ioapic_redirection_entries() {
    let io = IoApic::default();
    assert_eq!(io.enable_irq(1), (0x12, 0x21));
    assert_eq!(io.max_irq_entries(0x0017_0011), 0x17);
    let w = io.setup(1);
    assert_eq!(w, vec![(0x10, 0x0001_0020), (0x11, 0), (0x12, 0x0001_0021), (0x13, 0)]);
}

#[test]
fn apic_mode() {
    let a = Apic::new();
    assert!(!a.is_enabled());
    let b = enable_apic_mode(Lapic::new(0xFEE0_0000), IoApic::default());
    assert!(b.is_enabled());
    assert_eq!(b.lapic_eoi(), (0xB0, 0));
}

#[test]
fn page_entry_frame_round_trip() {
    let mut e = PageEntry(0);
    assert_eq!(e.get_frame_addr(), None);
    e.set_frame_addr(0x5000);
    assert_eq!(e.0, 0x5001);
    assert!(e.is_present());
    assert_eq!(e.get_frame_addr(), Some(0x5000));
}

#[test]
fn table_indices_of_an_address() {
    let v = VirtAddr((1u64 << 39) | (3u64 << 30) | (5u64 << 21) | (7u64 << 12));
    assert_eq!(TableLevel::PML4.index(v), 1);
    assert_eq!(TableLevel::PDP.index(v), 3);
    assert_eq!(TableLevel::PD.index(v), 5);
    assert_eq!(TableLevel::PT.index(v), 7);
    assert_eq!(TableLevel::PML4.next_level(), TableLevel::PDP);
}

#[test]
fn set_flags_adds_and_keeps() {
    let mut e = PageEntry(0x5000);
    let f = PageEntryFlags::from_bits_truncate(0x3);
    e.set_flags(f);
    assert_eq!(e.0, 0x5003);
    assert!(e.flags().contains(f));
    e.set_flags(f);
    assert_eq!(e.0, 0x5003);
}

#[test]
fn map_memory_creates_tables_and_translates() {
    let mut tables = PageTables::new();
    tables.add_table(0x1000);
    let m = PageTableManager::new(0x1000);
    let virt = VirtAddr((1u64 << 39) | (2u64 << 30) | (3u64 << 21) | (4u64 << 12));
    assert_eq!(m.phys_addr(&tables, virt), None);
    let mut frames = vec![0x4000u64, 0x3000, 0x2000];
    assert_eq!(m.map_memory(&mut tables, virt, PhysAddr(0x9000), &mut frames, true), Ok(()));
    assert!(frames.is_empty());
    assert_eq!(m.phys_addr(&tables, virt), Some(PhysAddr(0x9000)));
    let e = tables.get_entry_for_address(0x1000, virt).expect("entry");
    assert_eq!(e.0 & 0x7, 0x7);
    // a neighbour in the same page table needs no new table
    let virt2 = VirtAddr(virt.0 + 0x1000);
    let mut none: Vec<u64> = Vec::new();
    assert_eq!(m.map_memory(&mut tables, virt2, PhysAddr(0xA000), &mut none, false), Ok(()));
    assert_eq!(m.phys_addr(&tables, virt2), Some(PhysAddr(0xA000)));
    // another branch needs tables and gets no frames: nothing changes
    let virt3 = VirtAddr(5u64 << 39);
    let mut one = vec![0x5000u64];
    assert_eq!(m.map_memory(&mut tables, virt3, PhysAddr(0xB000), &mut one, false), Err(MapError::OutOfFrames));
    assert_eq!(one, vec![0x5000u64]);
    assert_eq!(m.phys_addr(&tables, virt3), None);
    assert_eq!(m.phys_addr(&tables, virt), Some(PhysAddr(0x9000)));
    // a top table that is not there
    let other = PageTableManager::new(0x7000);
    assert_eq!(other.map_memory(&mut tables, virt, PhysAddr(0x9000), &mut frames, false), Err(MapError::MissingTable));
}

#[test]
fn next_follows_present_entries() {
    let mut tables = PageTables::new();
    tables.add_table(0x1000);
    let top = PageTablePtr::new(0x1000, TableLevel::PML4);
    let virt = VirtAddr(0);
    assert!(top.next(&tables, virt).is_none());
    let mut frames = vec![0x2000u64];
    let p = top.next_or_create(&mut tables, virt, &mut frames).expect("table");
    assert_eq!(p.ptr, 0x2000);
    assert_eq!(p.level, TableLevel::PDP);
    let q = top.next(&tables, virt).expect("table");
    assert_eq!(q.ptr, 0x2000);
}

#[test]
fn entry_cluster_ors_the_halves() {
    let entry = DirectoryEntry {
        name: *b"a          ",
        attributes: 0,
        reserved: 0,
        creation_time_tenths: 0,
        creation_time: 0,
        creation_date: 0,
        access_date: 0,
        high_cluster: 1,
        modification_time: 0,
        modification_date: 0,
        low_cluster: 2,
        size: 0,
    };
    let node = VfsEntry { entry, name: "a".to_string(), sector: 0, offset: 0 };
    assert_eq!(node.get_cluster(), 0x3);
}

#[test]
fn clone_pml4_copies_the_mapping() {
    let mut tables = PageTables::new();
    tables.add_table(0x1000);
    let m = PageTableManager::new(0x1000);
    let virt = VirtAddr((1u64 << 39) | (4u64 << 12));
    let mut frames = vec![0x4000u64, 0x3000, 0x2000];
    assert_eq!(m.map_memory(&mut tables, virt, PhysAddr(0x9000), &mut frames, false), Ok(()));
    let mut more = vec![0x8000u64, 0x7000, 0x6000, 0x5000];
    let copy = PageTableManager::clone_pml4(&mut tables, 0x1000, &mut more).expect("copy");
    assert_eq!(copy, 0x5000);
    assert!(more.is_empty());
    let c = PageTableManager::new(copy);
    assert_eq!(c.phys_addr(&tables, virt), Some(PhysAddr(0x9000)));
    let mut few = vec![0xA000u64];
    assert_eq!(PageTableManager::clone_pml4(&mut tables, 0x1000, &mut few), Err(MapError::OutOfFrames));
    assert_eq!(few, vec![0xA000u64]);
}
