use lib::fs::disk::{read_u16, read_u32, Disk};
use lib::fs::fat::fat_driver::{FatDriver, CLUSTER_LAST};
use lib::fs::fat::{
    calculate_checksum, convert_to_fat_date, convert_to_fat_time, create_short_filename,
    get_current_fat_time_date,
};

fn put32(d: &mut Vec<u8>, off: usize, v: u32) {
    d[off] = v as u8;
    d[off + 1] = (v >> 8) as u8;
    d[off + 2] = (v >> 16) as u8;
    d[off + 3] = (v >> 24) as u8;
}

/// A volume of 64 sectors: one reserved sector, one FAT of one sector, the
/// root directory at cluster 2, one sector per cluster.
fn image() -> Vec<u8> {
    let mut d = vec![0u8; 64 * 512];
    d[11] = 0x00;
    d[12] = 0x02;
    d[13] = 1;
    d[14] = 1;
    d[16] = 1;
    d[32] = 64;
    d[36] = 1;
    d[44] = 2;
    d[510] = 0x55;
    d[511] = 0xAA;
    put32(&mut d, 512, 0x0FFF_FFF8);
    put32(&mut d, 516, 0x0FFF_FFFF);
    put32(&mut d, 520, 0x0FFF_FFFF);
    d
}

fn checksum_oracle(name: &[u8]) -> u8 {
    let mut sum: u8 = 0;
    for &b in name {
        sum = ((sum & 1) << 7).wrapping_add((sum >> 1).wrapping_add(b));
    }
    sum
}

#[test]
fn mount_reads_the_layout() {
    let drv = FatDriver::mount(Disk::new(image()));
    assert_eq!(drv.fs.bytes_per_sector, 512);
    assert_eq!(drv.fs.sectors_per_cluster, 1);
    assert_eq!(drv.fs.cluster_size, 512);
    assert_eq!(drv.fs.first_fat_sector, 1);
    assert_eq!(drv.fs.first_data_sector, 2);
    assert_eq!(drv.fs.root_dir_cluster, 2);
    assert_eq!(drv.fs.total_clusters, 62);
}

#[test]
fn next_cluster_of_root_is_end_of_chain() {
    let drv = FatDriver::mount(Disk::new(image()));
    assert_eq!(drv.get_next_cluster(2), 0x0FFF_FFFF);
    assert_eq!(drv.get_next_cluster(7), 0);
}

#[test]
fn set_then_get_next_cluster() {
    let mut drv = FatDriver::mount(Disk::new(image()));
    drv.set_next_cluster(5, 6);
    assert_eq!(drv.get_next_cluster(5), 6);
    assert_eq!(drv.get_next_cluster(4), 0);
    drv.set_next_cluster(5, 0xF000_0009);
    assert_eq!(drv.get_next_cluster(5), 9);
}

#[test]
fn alloc_cluster_takes_the_first_free_one() {
    let mut drv = FatDriver::mount(Disk::new(image()));
    assert_eq!(drv.alloc_cluster(), Some(3));
    assert!(drv.get_next_cluster(3) >= CLUSTER_LAST);
    assert_eq!(drv.alloc_cluster(), Some(4));
}

#[test]
fn alloc_cluster_on_a_full_volume() {
    let mut img = image();
    for c in 3..62u32 {
        put32(&mut img, 512 + 4 * c as usize, 0x0FFF_FFFF);
    }
    let mut drv = FatDriver::mount(Disk::new(img));
    assert_eq!(drv.alloc_cluster(), None);
}

#[test]
fn created_file_is_found() {
    let mut drv = FatDriver::mount(Disk::new(image()));
    drv.create_file(2, "hello.txt", 0x1234, 0x5678);
    let e = drv.get_dir_entry("/hello.txt").expect("entry");
    assert_eq!(e.name, "hello.txt");
    assert_eq!(&e.entry.name, b"hello   txt");
    assert_eq!(e.get_cluster(), 3);
    assert!(!e.is_dir());
    assert_eq!(e.entry.creation_time, 0x1234);
    assert_eq!(e.entry.creation_date, 0x5678);
    assert!(drv.get_dir_entry("/missing.txt").is_none());
}

#[test]
fn created_directory_holds_dot_entries() {
    let mut drv = FatDriver::mount(Disk::new(image()));
    drv.create_dir(2, "docs", 0, 0);
    let e = drv.get_dir_entry("/docs").expect("entry");
    assert!(e.is_dir());
    let c = e.get_cluster();
    let inner = drv.get_dir_entries(c);
    assert!(inner.iter().any(|x| x.name == "."));
    assert!(inner.iter().any(|x| x.name == ".."));
}

#[test]
fn write_then_read_file() {
    let mut drv = FatDriver::mount(Disk::new(image()));
    drv.create_file(2, "a.txt", 0, 0);
    let mut e = drv.get_dir_entry("/a.txt").expect("entry");
    let data = b"Hello, FAT".to_vec();
    drv.write_file(&mut e, &data, data.len());
    let back = drv.read_file(e.get_cluster());
    assert_eq!(&back[..data.len()], &data[..]);
    let again = drv.get_dir_entry("/a.txt").expect("entry");
    assert_eq!(again.entry.size as usize, data.len());
}

#[test]
fn delete_entry_marks_it_deleted() {
    let mut drv = FatDriver::mount(Disk::new(image()));
    drv.create_file(2, "gone.txt", 0, 0);
    let e = drv.get_dir_entry("/gone.txt").expect("entry");
    drv.delete_entry(&e);
    assert!(drv.get_dir_entry("/gone.txt").is_none());
}

#[test]
fn short_filename_splits_name_and_extension() {
    assert_eq!(&create_short_filename("hello.txt"), b"hello   txt");
    assert_eq!(&create_short_filename("abcdefghijkl"), b"abcdefghijk");
    assert_eq!(&create_short_filename("a.b"), b"a       b  ");
}

#[test]
fn checksum_matches_the_rotate_and_add_rule() {
    let n = *b"hello   txt";
    assert_eq!(calculate_checksum(&n), checksum_oracle(&n));
    assert_eq!(calculate_checksum(&[0u8; 11]), 0);
    assert_eq!(calculate_checksum(&[1u8]), 1);
}

#[test]
fn fat_date_and_time_encoding() {
    assert_eq!(convert_to_fat_date(2024, 5, 17), ((44u16) << 9) | (5 << 5) | 17);
    assert_eq!(convert_to_fat_date(1980, 1, 1), 0x21);
    assert_eq!(convert_to_fat_time(13, 45), (13u16 << 11) | (45 << 5));
    assert_eq!(get_current_fat_time_date((13, 45, 10), (17, 5, 2024)), (convert_to_fat_time(13, 45), convert_to_fat_date(2024, 5, 17)));
}

#[test]
fn little_endian_reads() {
    let b = [0x34u8, 0x12, 0x78, 0x56, 0xBC, 0x9A];
    assert_eq!(read_u16(&b, 0), 0x1234);
    assert_eq!(read_u32(&b, 0), 0x5678_1234);
    assert_eq!(read_u32(&b, 2), 0x9ABC_5678);
}

#[test]
fn disk_sector_write_then_read() {
    let mut disk = Disk::new(vec![0u8; 4 * 512]);
    let buf: Vec<u8> = (0..512).map(|i| (i % 251) as u8).collect();
    disk.write_sector(2, &buf);
    assert_eq!(disk.read_sector(2), buf);
    assert_eq!(disk.read_sector(1), vec![0u8; 512]);
}

#[test]
fn write_grows_the_chain_and_reads_back() {
    let mut drv = FatDriver::mount(Disk::new(image()));
    drv.create_file(2, "big.bin", 0, 0);
    let mut e = drv.get_dir_entry("/big.bin").expect("entry");
    // a first write ends the chain of the file at its cluster
    drv.write_file(&mut e, b"x", 1);
    let data: Vec<u8> = (0..900u32).map(|i| (i % 253) as u8).collect();
    drv.write_file(&mut e, &data, data.len());
    let first = e.get_cluster();
    let second = drv.get_next_cluster(first);
    assert_ne!(second, first);
    assert!(second < drv.fs.total_clusters);
    assert_eq!(drv.get_next_cluster(second), 0x0FFF_FFFF);
    let back = drv.read_file(first);
    assert_eq!(back.len(), 1024);
    assert_eq!(&back[..data.len()], &data[..]);
}

#[test]
fn deleted_entry_takes_the_free_mark() {
    let mut drv = FatDriver::mount(Disk::new(image()));
    drv.create_file(2, "old.txt", 0, 0);
    let e = drv.get_dir_entry("/old.txt").expect("entry");
    drv.delete_entry(&e);
    assert_eq!(drv.device.read_sector(e.sector as u64)[e.offset as usize], 0xE5);
    // the place is taken again by the next file
    drv.create_file(2, "new.txt", 0, 0);
    let n = drv.get_dir_entry("/new.txt").expect("entry");
    assert!(n.sector == e.sector);
}

#[test]
fn a_path_through_a_file_names_nothing() {
    let mut drv = FatDriver::mount(Disk::new(image()));
    drv.create_file(2, "a.txt", 0, 0);
    assert!(drv.get_dir_entry("/a.txt").is_some());
    assert!(drv.get_dir_entry("/a.txt/b").is_none());
}

#[test]
fn mount_checks_in_the_library() {
    let img = image();
    assert!(lib::fs::fat::fat_driver::is_mountable(&img[..512]));
    let mut bad = img.clone();
    bad[13] = 0;
    assert!(!lib::fs::fat::fat_driver::is_mountable(&bad[..512]));
    let drv = FatDriver::mount(Disk::new(img));
    assert!(drv.fits_disk());
    let short = FatDriver::mount(Disk::new(image()[..512].to_vec()));
    assert!(!short.fits_disk());
}

#[test]
fn long_names_are_utf16() {
    let entries = lib::fs::fat::long_dir_entry::create_lfn_entries("a\u{1F600}", 0x42);
    assert_eq!(entries.len(), 1);
    let units: Vec<u16> = "a\u{1F600}".encode_utf16().collect();
    assert_eq!(units, vec![0x61, 0xD83D, 0xDE00]);
    assert_eq!(&entries[0].name1[..3], &units[..]);
}

#[test]
fn directory_chain_check() {
    let mut drv = FatDriver::mount(Disk::new(image()));
    assert!(drv.chain_is_readable(2));
    drv.create_file(2, "x.txt", 0, 0);
    assert!(drv.chain_is_readable(2));
    // a chain that leaves the volume
    drv.set_next_cluster(2, 70);
    assert!(!drv.chain_is_readable(2));
}
