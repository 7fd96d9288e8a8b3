use lib::fs::disk::Disk;
use lib::fs::fs2::FileSystem;
use lib::fs::mount::{
    find_key, insert_key, is_prefix, is_root_path, join_components, longest_prefix_index,
    relative_components, remove_key,
};
use lib::fs::text::{chars_of, eq_ignore_ascii_case, split_path};
use lib::fs::vfs::{VfsOutcome, VirtualFileSystem};
use lib::fs::vsf_manager::VfsManager;

fn put32(d: &mut Vec<u8>, off: usize, v: u32) {
    d[off] = v as u8;
    d[off + 1] = (v >> 8) as u8;
    d[off + 2] = (v >> 16) as u8;
    d[off + 3] = (v >> 24) as u8;
}

fn image() -> Vec<u8> {
    let mut d = vec![0u8; 64 * 512];
    d[12] = 0x02;
    d[13] = 1;
    d[14] = 1;
    d[16] = 1;
    d[32] = 64;
    d[36] = 1;
    d[44] = 2;
    put32(&mut d, 512, 0x0FFF_FFF8);
    put32(&mut d, 516, 0x0FFF_FFFF);
    put32(&mut d, 520, 0x0FFF_FFFF);
    d
}

fn cv(s: &str) -> Vec<char> {
    s.chars().collect()
}

fn mounted() -> VirtualFileSystem {
    let mut vfs = VirtualFileSystem::new();
    assert_eq!(vfs.mount(Some(Disk::new(image())), "sda", "/", "fat32"), VfsOutcome::Done);
    vfs
}

#[test]
fn mount_serves_paths_below_it() {
    let vfs = mounted();
    let (_, parts) = vfs.get_driver("/dir/file.txt").expect("driver");
    assert_eq!(parts, vec![cv("dir"), cv("file.txt")]);
    assert_eq!(vfs.mount_info.len(), 1);
    assert_eq!(vfs.mount_info[0].1.device, "sda");
    assert_eq!(vfs.mount_info[0].1.driver, "fat32");
}

#[test]
fn mount_twice_is_refused() {
    let mut vfs = mounted();
    assert_eq!(vfs.mount(Some(Disk::new(image())), "sdb", "/", "fat32"), VfsOutcome::AlreadyMounted);
    assert_eq!(vfs.mount_points.len(), 1);
}

#[test]
fn mount_without_device() {
    let mut vfs = VirtualFileSystem::new();
    assert_eq!(vfs.mount(None, "nope", "/", "fat32"), VfsOutcome::DeviceNotFound);
    assert!(vfs.get_driver("/x").is_none());
}

#[test]
fn unmount_undoes_mount() {
    let mut vfs = mounted();
    vfs.unmount("/");
    assert!(vfs.get_driver("/a").is_none());
    assert_eq!(vfs.mount_points.len(), 0);
    assert_eq!(vfs.mount_info.len(), 0);
}

#[test]
fn longest_mount_point_wins() {
    let mut vfs = mounted();
    assert_eq!(vfs.mount(Some(Disk::new(image())), "sdb", "/mnt", "fat32"), VfsOutcome::Done);
    let (_, parts) = vfs.get_driver("/mnt/a.txt").expect("driver");
    assert_eq!(parts, vec![cv("a.txt")]);
    let (_, parts) = vfs.get_driver("/other/a.txt").expect("driver");
    assert_eq!(parts, vec![cv("other"), cv("a.txt")]);
}

#[test]
fn create_write_read_remove_file() {
    let mut vfs = mounted();
    assert!(!vfs.path_exists("/notes.txt"));
    assert_eq!(vfs.create_file("/notes.txt", 0, 0), VfsOutcome::Done);
    assert!(vfs.path_exists("/notes.txt"));
    assert_eq!(vfs.create_file("/notes.txt", 0, 0), VfsOutcome::AlreadyExists);
    let data = b"some notes".to_vec();
    assert_eq!(vfs.write_file("/notes.txt", &data, data.len()), VfsOutcome::Done);
    let back = vfs.read_file("/notes.txt").expect("data");
    assert_eq!(&back[..data.len()], &data[..]);
    assert_eq!(vfs.remove_file("/notes.txt"), VfsOutcome::Done);
    assert!(!vfs.path_exists("/notes.txt"));
    assert_eq!(vfs.remove_file("/notes.txt"), VfsOutcome::NotFound);
}

#[test]
fn create_and_list_directory() {
    let mut vfs = mounted();
    assert_eq!(vfs.create_dir("/docs", 0, 0), VfsOutcome::Done);
    assert_eq!(vfs.create_file("/docs/a.txt", 0, 0), VfsOutcome::Done);
    let list = vfs.read_dir("/docs").expect("listing");
    assert!(list.iter().any(|e| e.name == "a.txt"));
    let root = vfs.read_dir("/").expect("listing");
    assert!(root.iter().any(|e| e.name == "docs" && e.is_dir()));
    assert_eq!(vfs.remove_file("/docs"), VfsOutcome::IsDirectory);
    assert_eq!(vfs.remove_dir("/docs/a.txt"), VfsOutcome::NotDirectory);
}

#[test]
fn operations_without_a_mount() {
    let mut vfs = VirtualFileSystem::new();
    assert!(!vfs.path_exists("/a"));
    assert_eq!(vfs.create_file("/a", 0, 0), VfsOutcome::NoDriver);
    assert!(vfs.read_file("/a").is_none());
}

#[test]
fn file_system_delegates_to_its_table() {
    let mut fs = FileSystem::new();
    assert_eq!(fs.mount(Some(Disk::new(image())), "sda", "/", "fat32"), VfsOutcome::Done);
    assert!(fs.get_driver("/a").is_some());
    assert!(fs.list_directory("/").is_some());
    fs.unmount("/");
    assert!(fs.get_driver("/a").is_none());
}

#[test]
fn key_table_operations() {
    let mut v: Vec<(String, u32)> = Vec::new();
    insert_key(&mut v, "/a".to_string(), 1);
    insert_key(&mut v, "/b".to_string(), 2);
    assert_eq!(find_key(&v, "/b"), Some(1));
    assert_eq!(find_key(&v, "/c"), None);
    remove_key(&mut v, "/a");
    assert_eq!(find_key(&v, "/a"), None);
    assert_eq!(find_key(&v, "/b"), Some(0));
}

#[test]
fn prefixes_and_components() {
    assert!(is_prefix(&cv("/mnt"), &cv("/mnt/x")));
    assert!(!is_prefix(&cv("/mnt/x"), &cv("/mnt")));
    let v: Vec<(String, u8)> = vec![("/".to_string(), 0), ("/mnt".to_string(), 1)];
    assert_eq!(longest_prefix_index(&v, &cv("/mnt/x")), Some(1));
    assert_eq!(longest_prefix_index(&v, &cv("/usr")), Some(0));
    let parts = relative_components(&cv("/mnt/a/b"), 4);
    assert_eq!(parts, vec![cv("a"), cv("b")]);
    assert_eq!(join_components(&parts, 2), cv("a/b"));
    assert!(is_root_path(&vec![]));
    assert!(!is_root_path(&parts));
}

#[test]
fn text_helpers() {
    assert_eq!(chars_of("héllo"), cv("héllo"));
    assert!(eq_ignore_ascii_case(&cv("Hello.TXT"), &cv("hello.txt")));
    assert!(!eq_ignore_ascii_case(&cv("hello"), &cv("hell")));
    assert_eq!(split_path("/a//b/"), vec![cv("a"), cv("b")]);
    assert_eq!(split_path("/"), Vec::<Vec<char>>::new());
}

#[test]
fn vfs_manager_mounts_and_unmounts() {
    let mut m = VfsManager::new();
    m.mount(7);
    m.mount(9);
    m.unmount(7);
    assert_eq!(m.fss, vec![9]);
}
