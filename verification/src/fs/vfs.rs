use vstd::prelude::*;
use vstd::string::StringSliceAdditionalSpecFns;
use vstd::utf8::encode_utf8;
use crate::fs::disk::{Disk, SECTOR_SIZE};
use crate::fs::fat::fat_driver::{
    chain, dir_entry_lookup, dir_found, entry_cluster, is_found, layout_fits, layout_of, lookup_ok,
    mountable, with_fat_entry, FatDriver, FoundEntry, ATTR_DIRECTORY, ENTRY_FREE,
};
use crate::fs::fat::dir_entry::{entry_bytes, DirectoryEntry};
use crate::fs::fat::fat_write::{
    clusters_bytes, clusters_needed, dir_created, file_chain, file_created, file_written, with_bytes, CHAIN_END,
};
use crate::fs::mount::{
    find_key, insert_key, is_root, is_root_path, join_components, join_slash, key_index, keys_unique,
    lemma_key_index, lemma_key_index_has, lemma_longest_prefix_has, longest_prefix, longest_prefix_index,
    relative_components, relative_parts, remove_key, MountInfo, has_key, lemma_longest_prefix,
};
use crate::fs::text::{chars_of, string_of_chars};
use crate::fs::vfs_dir_entry::{EntryType, VfsDirectoryEntry};

verus! {

/// What an operation of the file system ends with, where it does not
/// simply succeed.
#[derive(Debug, Clone, Copy, PartialEq, Eq, Structural)]
pub enum VfsOutcome {
    /// It was done.
    Done,
    /// The path is already a mount point.
    AlreadyMounted,
    /// No device has the name given.
    DeviceNotFound,
    /// An entry of that path already exists.
    AlreadyExists,
    /// No mount point serves the path.
    NoDriver,
    /// The path names no entry.
    NoName,
    /// The directory that would hold the entry was not found.
    NoParent,
    /// No entry has that path.
    NotFound,
    /// The entry is a directory.
    IsDirectory,
    /// The entry is not a directory.
    NotDirectory,
}

/// The views of the parts of a path.
pub open spec fn parts_of(c: Seq<Vec<char>>) -> Seq<Seq<char>> {
    c.map_values(|p: Vec<char>| p@)
}

/// The mount point of the table `points` that serves `path`, the one whose
/// path is the longest prefix of it, with the parts of the path below it.
pub open spec fn driver_for(points: Seq<(String, FatDriver)>, path: Seq<char>) -> Option<(int, Seq<Seq<char>>)> {
    match longest_prefix(points, path) {
        Some(i) => Some((i, relative_parts(path, points[i].0@))),
        None => None,
    }
}

/// Whether the layout of each mounted volume fits its disk.
pub open spec fn volumes_fit(points: Seq<(String, FatDriver)>) -> bool {
    forall|i: int|
        0 <= i < points.len() ==> layout_fits((#[trigger] points[i]).1.fs, points[i].1.device@.len() as int)
}

/// The entry that `path` names: the mount point that serves it looks the
/// whole path up from the root of its volume.
pub open spec fn entry_for(points: Seq<(String, FatDriver)>, path: Seq<char>) -> Option<(int, FoundEntry)> {
    match driver_for(points, path) {
        None => None,
        Some(p) => match dir_entry_lookup(points[p.0].1.device@, points[p.0].1.fs, path) {
            Some(e) => Some((p.0, e)),
            None => None,
        },
    }
}

/// A path exists exactly when a mount point serves it and the volume
/// mounted there finds the whole path: [`VirtualFileSystem::path_exists`]
/// answers the driver lookup followed by the volume's lookup.
pub proof fn lemma_exists_is_lookup(points: Seq<(String, FatDriver)>, path: Seq<char>)
    ensures
        entry_for(points, path) is Some <==> (driver_for(points, path) matches Some(p) && dir_entry_lookup(
            points[p.0].1.device@,
            points[p.0].1.fs,
            path,
        ) is Some),
{
}

/// Whether the lookup of [`entry_for`] can read what it reads.
pub open spec fn entry_lookup_ok(points: Seq<(String, FatDriver)>, path: Seq<char>) -> bool {
    match driver_for(points, path) {
        None => true,
        Some(p) => lookup_ok(points[p.0].1.device@, points[p.0].1.fs, path),
    }
}

/// The cluster reached by following the parts `parts` from part `k` on,
/// from `cluster`: each part is looked up by itself from the root of the
/// volume, and must name a directory, which is entered.
pub open spec fn parts_target(drv: FatDriver, parts: Seq<Seq<char>>, k: int, cluster: u32) -> Option<u32>
    decreases parts.len() - k,
{
    if k < 0 || k >= parts.len() {
        Some(cluster)
    } else {
        match dir_entry_lookup(drv.device@, drv.fs, parts[k]) {
            None => None,
            Some(e) => if e.0.attributes & ATTR_DIRECTORY == 0 {
                None
            } else {
                parts_target(drv, parts, k + 1, entry_cluster(e.0))
            },
        }
    }
}

/// The cluster of the directory that the parts `parts` lead to (see
/// [`parts_target`]); the root directory for a root path.
pub open spec fn target_cluster(drv: FatDriver, parts: Seq<Seq<char>>) -> Option<u32> {
    if is_root(parts) {
        Some(drv.fs.root_dir_cluster)
    } else {
        parts_target(drv, parts, 0, drv.fs.root_dir_cluster)
    }
}

/// Whether each of the lookups of `parts` can read what it reads.
pub open spec fn parts_ok(drv: FatDriver, parts: Seq<Seq<char>>) -> bool {
    forall|k: int| 0 <= k < parts.len() ==> lookup_ok(drv.device@, drv.fs, #[trigger] parts[k])
}

/// The cluster of the directory that would hold the entry that `parts`
/// name: the root directory where the parts before the last join to
/// nothing or name the root, else the entry that they join to, looked up
/// from the root.
pub open spec fn parent_cluster(drv: FatDriver, parts: Seq<Seq<char>>) -> Option<u32> {
    let n = if parts.len() == 0 { 0nat } else { (parts.len() - 1) as nat };
    let parent = join_slash(parts, n);
    if parent.len() == 0 || is_root(parts) {
        Some(drv.fs.root_dir_cluster)
    } else {
        match dir_entry_lookup(drv.device@, drv.fs, parent) {
            Some(e) => Some(entry_cluster(e.0)),
            None => None,
        }
    }
}

/// The path that [`parent_cluster`] looks up.
pub open spec fn parent_path(parts: Seq<Seq<char>>) -> Seq<char> {
    let n = if parts.len() == 0 { 0nat } else { (parts.len() - 1) as nat };
    join_slash(parts, n)
}

/// The entries listed from the directory whose chain starts at `cluster`.
pub open spec fn listing(drv: FatDriver, cluster: u32) -> Seq<FoundEntry> {
    dir_found(drv.device@, drv.fs, chain(drv.device@, drv.fs, cluster, drv.fs.total_clusters as nat)->0)
}

/// Whether `new` is the table `old` with the disk of volume `i` holding
/// `disk`, and nothing else changed.
pub open spec fn volume_updated(old: Seq<(String, FatDriver)>, new: Seq<(String, FatDriver)>, i: int, disk: Seq<u8>) -> bool {
    &&& new.len() == old.len()
    &&& new[i].0 == old[i].0
    &&& new[i].1.fs == old[i].1.fs
    &&& new[i].1.device@ == disk
    &&& forall|j: int| 0 <= j < old.len() && j != i ==> new[j] == old[j]
}

/// The disk of volume `drv` after creating, in the directory at `parent`,
/// an entry of kind `kind` named `name` (see [`dir_created`] and
/// [`file_created`]).
pub open spec fn created_for(kind: EntryType, drv: FatDriver, parent: u32, name: Seq<char>, time: u16, date: u16) -> Option<
    Seq<u8>,
> {
    let len = encode_utf8(name).len() as usize;
    match kind {
        EntryType::Directory => dir_created(drv.device@, drv.fs, parent, name, len, time, date),
        EntryType::File => file_created(drv.device@, drv.fs, parent, name, len, time, date),
    }
}

/// Whether the file of the entry `e` of volume `drv` can take the first
/// `size` bytes of `data` (see [`FatDriver::write_file`]).
pub open spec fn write_ok(drv: FatDriver, e: FoundEntry, data: Seq<u8>, size: usize) -> bool {
    &&& size <= data.len()
    &&& drv.fs.cluster_size > 0
    &&& (size as u32) + drv.fs.cluster_size <= u32::MAX
    &&& (e.3 + 1) * SECTOR_SIZE <= drv.device@.len()
    &&& e.2 + 32 <= SECTOR_SIZE
    &&& file_written(
        drv.device@,
        drv.fs,
        entry_cluster(e.0),
        data,
        size as nat,
        0,
        clusters_needed(size, drv.fs.cluster_size),
    ) matches Some(q) && q.1 < drv.fs.total_clusters
}

/// The disk of volume `drv` after the first `size` bytes of `data` are
/// written into the file of the entry `e` (see [`FatDriver::write_file`]).
pub open spec fn written_disk(drv: FatDriver, e: FoundEntry, data: Seq<u8>, size: usize) -> Seq<u8> {
    let q = file_written(
        drv.device@,
        drv.fs,
        entry_cluster(e.0),
        data,
        size as nat,
        0,
        clusters_needed(size, drv.fs.cluster_size),
    )->0;
    with_bytes(
        with_fat_entry(q.0, drv.fs, q.1, CHAIN_END),
        e.3 * SECTOR_SIZE + e.2,
        entry_bytes(DirectoryEntry { size: size as u32, ..e.0 }),
    )
}

/// What mounting the volume on `device` (`None` where no device has the
/// name `device_name`) at `path` with the driver named `driver_name` does
/// to the tables `points` and `info`, and answers: nothing where there is
/// no device or `path` is already mounted; else the volume, with the layout
/// that its boot sector describes, and what is known of it, are added at
/// the end of the tables.
pub open spec fn mount_outcome(
    points: Seq<(String, FatDriver)>,
    info: Seq<(String, MountInfo)>,
    new_points: Seq<(String, FatDriver)>,
    new_info: Seq<(String, MountInfo)>,
    device: Option<Disk>,
    device_name: Seq<char>,
    path: Seq<char>,
    driver_name: Seq<char>,
    r: VfsOutcome,
) -> bool {
    match device {
        None => r == VfsOutcome::DeviceNotFound && new_points == points && new_info == info,
        Some(d) => if key_index(points, path) is Some {
            r == VfsOutcome::AlreadyMounted && new_points == points && new_info == info
        } else {
            &&& r == VfsOutcome::Done
            &&& new_points.len() == points.len() + 1
            &&& new_points.drop_last() == points
            &&& new_points.last().0@ == path
            &&& new_points.last().1.device@ == d@
            &&& new_points.last().1.fs == layout_of(d@.subrange(0, 512))
            &&& new_info.len() == info.len() + 1
            &&& new_info.drop_last() == info
            &&& new_info.last().0@ == path
            &&& new_info.last().1.device@ == device_name
            &&& new_info.last().1.target@ == path
            &&& new_info.last().1.driver@ == driver_name
        },
    }
}

/// Whether `r` is what listing the directory that `path` leads to gives
/// (see [`target_cluster`] and [`listing`]).
pub open spec fn dir_read(points: Seq<(String, FatDriver)>, path: Seq<char>, r: Option<Vec<VfsDirectoryEntry>>) -> bool {
    match driver_for(points, path) {
        None => r is None,
        Some(p) => match target_cluster(points[p.0].1, p.1) {
            None => r is None,
            Some(c) => r matches Some(v) && v@.len() == listing(points[p.0].1, c).len() && forall|k: int|
                0 <= k < v@.len() ==> is_found(#[trigger] v@[k], listing(points[p.0].1, c)[k]),
        },
    }
}

/// Whether the directory that `path` leads to can be read.
pub open spec fn dir_read_ok(points: Seq<(String, FatDriver)>, path: Seq<char>) -> bool {
    driver_for(points, path) matches Some(p) ==> {
        let drv = points[p.0].1;
        &&& parts_ok(drv, p.1)
        &&& target_cluster(drv, p.1) matches Some(c) ==> chain(
            drv.device@,
            drv.fs,
            c,
            drv.fs.total_clusters as nat,
        ) is Some
    }
}

/// The volume just mounted at `path` serves `path`: its mount point is the
/// longest prefix of it, and the path below is the root.
pub proof fn lemma_mount_serves(
    points: Seq<(String, FatDriver)>,
    info: Seq<(String, MountInfo)>,
    new_points: Seq<(String, FatDriver)>,
    new_info: Seq<(String, MountInfo)>,
    device: Option<Disk>,
    device_name: Seq<char>,
    path: Seq<char>,
    driver_name: Seq<char>,
)
    requires
        keys_unique(new_points),
        mount_outcome(points, info, new_points, new_info, device, device_name, path, driver_name, VfsOutcome::Done),
    ensures
        driver_for(new_points, path) == Some(((new_points.len() - 1) as int, seq![Seq::<char>::empty()])),
{
    let last = new_points.len() - 1;
    assert(path.subrange(0, path.len() as int) =~= path);
    assert forall|j: int| 0 <= j < new_points.len() && (#[trigger] new_points[j]).0@.is_prefix_of(path) implies new_points[j].0@.len()
        <= new_points[last].0@.len() by {}
    lemma_longest_prefix(new_points, path, last);
    assert(path.subrange(path.len() as int, path.len() as int) =~= Seq::<char>::empty());
    assert(relative_parts(path, new_points[last].0@) =~= seq![Seq::<char>::empty()]);
}

/// Unmounting the path just mounted gives back the tables as they were
/// before the mount.
pub proof fn lemma_unmount_undoes_mount(
    points: Seq<(String, FatDriver)>,
    info: Seq<(String, MountInfo)>,
    new_points: Seq<(String, FatDriver)>,
    new_info: Seq<(String, MountInfo)>,
    device: Option<Disk>,
    device_name: Seq<char>,
    path: Seq<char>,
    driver_name: Seq<char>,
)
    requires
        keys_unique(new_points),
        keys_unique(new_info),
        mount_outcome(points, info, new_points, new_info, device, device_name, path, driver_name, VfsOutcome::Done),
    ensures
        key_index(new_points, path) == Some((new_points.len() - 1) as int),
        key_index(new_info, path) == Some((new_info.len() - 1) as int),
        new_points.remove(new_points.len() - 1) == points,
        new_info.remove(new_info.len() - 1) == info,
{
    lemma_key_index(new_points, path, new_points.len() - 1);
    lemma_key_index(new_info, path, new_info.len() - 1);
    assert(new_points.remove(new_points.len() - 1) =~= new_points.drop_last());
    assert(new_info.remove(new_info.len() - 1) =~= new_info.drop_last());
}

/// A virtual file system: volumes mounted at paths, each path served by
/// the volume mounted at its longest prefix.
pub struct VirtualFileSystem {
    /// The volumes, by the path they are mounted at.
    pub mount_points: Vec<(String, FatDriver)>,
    /// What is known of each mount point, by its path.
    pub mount_info: Vec<(String, MountInfo)>,
}

impl VirtualFileSystem {
    /// Each path is mounted once, and both tables list the same paths in
    /// the same order.
    pub open spec fn wf(&self) -> bool {
        &&& keys_unique(self.mount_points@)
        &&& keys_unique(self.mount_info@)
        &&& self.mount_points@.len() == self.mount_info@.len()
        &&& forall|i: int|
            0 <= i < self.mount_points@.len() ==> (#[trigger] self.mount_points@[i]).0@
                == self.mount_info@[i].0@
    }

    /// A file system with nothing mounted.
    pub fn new() -> (v: Self)
        ensures
            v.wf(),
            v.mount_points@.len() == 0,
            v.mount_info@.len() == 0,
    {
        VirtualFileSystem { mount_points: Vec::new(), mount_info: Vec::new() }
    }

    /// Mounts the volume on `device` (looked up by the name `device_name`;
    /// `None` where no device has it) at `path`, with the driver named
    /// `driver_name`; nothing happens where `path` is already mounted.
    pub fn mount(&mut self, device: Option<Disk>, device_name: &str, path: &str, driver_name: &str) -> (r: VfsOutcome)
        requires
            old(self).wf(),
            device matches Some(d) ==> d@.len() >= SECTOR_SIZE && mountable(d@.subrange(0, 512)),
        ensures
            final(self).wf(),
            mount_outcome(
                old(self).mount_points@,
                old(self).mount_info@,
                final(self).mount_points@,
                final(self).mount_info@,
                device,
                device_name@,
                path@,
                driver_name@,
                r,
            ),
    {
        match device {
            Some(device) => {
                if find_key(&self.mount_points, path).is_some() {
                    return VfsOutcome::AlreadyMounted;
                }
                let ghost old_info = self.mount_info@;
                proof {
                    assert forall|j: int| !has_key(old_info, path@, j) by {
                        if has_key(old_info, path@, j) {
                            assert(has_key(self.mount_points@, path@, j));
                        }
                    }
                    lemma_key_index_has(self.mount_points@, path@);
                }
                let driver = FatDriver::mount(device);
                insert_key(&mut self.mount_points, path.to_owned(), driver);
                let info = MountInfo {
                    device: device_name.to_owned(),
                    target: path.to_owned(),
                    driver: driver_name.to_owned(),
                };
                insert_key(&mut self.mount_info, path.to_owned(), info);
                proof {
                    assert(self.mount_points@.drop_last() =~= old(self).mount_points@);
                    assert(self.mount_info@.drop_last() =~= old(self).mount_info@);
                }
                VfsOutcome::Done
            },
            None => VfsOutcome::DeviceNotFound,
        }
    }

    /// Unmounts the volume mounted at `path`, where there is one.
    pub fn unmount(&mut self, path: &str)
        requires
            old(self).wf(),
        ensures
            final(self).wf(),
            match key_index(old(self).mount_points@, path@) {
                Some(i) => final(self).mount_points@ == old(self).mount_points@.remove(i)
                    && final(self).mount_info@ == old(self).mount_info@.remove(i),
                None => final(self).mount_points@ == old(self).mount_points@ && final(self).mount_info@ == old(
                    self,
                ).mount_info@,
            },
    {
        let ghost pts = self.mount_points@;
        let ghost inf = self.mount_info@;
        proof {
            lemma_key_index_has(pts, path@);
            lemma_key_index_has(inf, path@);
            if let Some(i) = key_index(pts, path@) {
                assert(has_key(inf, path@, i));
                lemma_key_index(inf, path@, i);
            } else if let Some(i) = key_index(inf, path@) {
                assert(has_key(pts, path@, i));
            }
        }
        remove_key(&mut self.mount_points, path);
        remove_key(&mut self.mount_info, path);
        proof {
            if let Some(i) = key_index(pts, path@) {
                assert forall|j: int| 0 <= j < self.mount_points@.len() implies (#[trigger] self.mount_points@[j]).0@
                    == self.mount_info@[j].0@ by {
                    if j < i {
                        assert(self.mount_points@[j] == pts[j] && self.mount_info@[j] == inf[j]);
                    } else {
                        assert(self.mount_points@[j] == pts[j + 1] && self.mount_info@[j] == inf[j + 1]);
                    }
                }
            }
        }
    }

    /// The volume that serves `path`, the one mounted at its longest
    /// prefix, with the parts of the path below its mount point.
    pub fn get_driver(&self, path: &str) -> (r: Option<(&FatDriver, Vec<Vec<char>>)>)
        requires
            self.wf(),
        ensures
            match driver_for(self.mount_points@, path@) {
                Some(p) => r matches Some(q) && *q.0 == self.mount_points@[p.0].1 && parts_of(q.1@) == p.1,
                None => r is None,
            },
    {
        let path_chars = chars_of(path);
        proof {
            lemma_longest_prefix_has(self.mount_points@, path@);
        }
        match longest_prefix_index(&self.mount_points, &path_chars) {
            Some(i) => {
                let mount_chars = chars_of(self.mount_points[i].0.as_str());
                let parts = relative_components(&path_chars, mount_chars.len());
                proof {
                    assert(parts_of(parts@) =~= relative_parts(path@, self.mount_points@[i as int].0@));
                }
                Some((&self.mount_points[i].1, parts))
            },
            None => None,
        }
    }

    /// The volume that serves `path` and the entry that the whole path
    /// names in it (see [`entry_for`]).
    fn get_entry_for_path(&self, path: &str) -> (r: Option<(usize, VfsDirectoryEntry)>)
        requires
            self.wf(),
            volumes_fit(self.mount_points@),
            entry_lookup_ok(self.mount_points@, path@),
        ensures
            match entry_for(self.mount_points@, path@) {
                Some(p) => r matches Some(q) && q.0 == p.0 && q.0 < self.mount_points@.len() && is_found(q.1, p.1),
                None => r is None,
            },
    {
        let path_chars = chars_of(path);
        proof {
            lemma_longest_prefix_has(self.mount_points@, path@);
        }
        match longest_prefix_index(&self.mount_points, &path_chars) {
            Some(i) => {
                let driver = &self.mount_points[i].1;
                match driver.get_dir_entry(path) {
                    Some(e) => Some((i, e)),
                    None => None,
                }
            },
            None => None,
        }
    }

    /// Whether `path` names an entry (see [`entry_for`]).
    pub fn path_exists(&self, path: &str) -> (b: bool)
        requires
            self.wf(),
            volumes_fit(self.mount_points@),
            entry_lookup_ok(self.mount_points@, path@),
        ensures
            b == entry_for(self.mount_points@, path@) is Some,
    {
        self.get_entry_for_path(path).is_some()
    }

    /// The volume that serves `path` and the cluster of the directory the
    /// parts below its mount point lead to (see [`target_cluster`]).
    fn resolve_target_cluster(&self, path: &str) -> (r: Option<(usize, u32)>)
        requires
            self.wf(),
            volumes_fit(self.mount_points@),
            driver_for(self.mount_points@, path@) matches Some(p) ==> parts_ok(self.mount_points@[p.0].1, p.1),
        ensures
            match driver_for(self.mount_points@, path@) {
                None => r is None,
                Some(p) => match target_cluster(self.mount_points@[p.0].1, p.1) {
                    Some(c) => r matches Some(q) && q.0 == p.0 && q.1 == c && p.0 < self.mount_points@.len(),
                    None => r is None,
                },
            },
    {
        let path_chars = chars_of(path);
        proof {
            lemma_longest_prefix_has(self.mount_points@, path@);
        }
        let i = match longest_prefix_index(&self.mount_points, &path_chars) {
            Some(i) => i,
            None => {
                return None;
            },
        };
        let driver = &self.mount_points[i].1;
        let mount_chars = chars_of(self.mount_points[i].0.as_str());
        let parts = relative_components(&path_chars, mount_chars.len());
        let ghost ps = relative_parts(path@, self.mount_points@[i as int].0@);
        proof {
            assert(parts_of(parts@) =~= ps);
        }
        let mut current_cluster = driver.fs.root_dir_cluster;
        if !is_root_path(&parts) {
            let mut k: usize = 0;
            while k < parts.len()
                invariant
                    driver_for(self.mount_points@, path@) == Some((i as int, ps)),
                    i < self.mount_points@.len(),
                    *driver == self.mount_points@[i as int].1,
                    !is_root(ps),
                    layout_fits(driver.fs, driver.device@.len() as int),
                    parts_ok(*driver, ps),
                    parts_of(parts@) == ps,
                    k <= parts@.len(),
                    parts_target(*driver, ps, k as int, current_cluster) == parts_target(
                        *driver,
                        ps,
                        0,
                        driver.fs.root_dir_cluster,
                    ),
                decreases parts@.len() - k,
            {
                assert(ps[k as int] == parts@[k as int]@);
                let name = string_of_chars(&parts[k]);
                let entry = match driver.get_dir_entry(name.as_str()) {
                    Some(e) => e,
                    None => {
                        assert(parts_target(*driver, ps, k as int, current_cluster) is None);
                        return None;
                    },
                };
                if !entry.is_dir() {
                    assert(parts_target(*driver, ps, k as int, current_cluster) is None);
                    return None;
                }
                current_cluster = entry.get_cluster();
                k = k + 1;
            }
        }
        Some((i, current_cluster))
    }

    /// The entries of the directory that `path` leads to (see
    /// [`target_cluster`]), as the volume lists them.
    #[verifier::rlimit(30)]
    pub fn read_dir(&self, path: &str) -> (r: Option<Vec<VfsDirectoryEntry>>)
        requires
            self.wf(),
            volumes_fit(self.mount_points@),
            dir_read_ok(self.mount_points@, path@),
        ensures
            dir_read(self.mount_points@, path@, r),
    {
        let (i, cluster) = match self.resolve_target_cluster(path) {
            Some(t) => t,
            None => {
                return None;
            },
        };
        proof {
            let p = driver_for(self.mount_points@, path@)->0;
            assert(p.0 == i);
            assert(target_cluster(self.mount_points@[p.0].1, p.1) == Some(cluster));
        }
        let entries = self.mount_points[i].1.get_dir_entries(cluster);
        Some(entries)
    }

    /// The place of the volume that serves `path` and the parts of the path
    /// below its mount point (see [`driver_for`]).
    fn driver_index(&self, path: &str) -> (r: Option<(usize, Vec<Vec<char>>)>)
        requires
            self.wf(),
        ensures
            match driver_for(self.mount_points@, path@) {
                Some(p) => r matches Some(q) && q.0 == p.0 && q.0 < self.mount_points@.len() && parts_of(q.1@)
                    == p.1,
                None => r is None,
            },
    {
        let path_chars = chars_of(path);
        proof {
            lemma_longest_prefix_has(self.mount_points@, path@);
        }
        match longest_prefix_index(&self.mount_points, &path_chars) {
            Some(i) => {
                let mount_chars = chars_of(self.mount_points[i].0.as_str());
                let parts = relative_components(&path_chars, mount_chars.len());
                proof {
                    assert(parts_of(parts@) =~= relative_parts(path@, self.mount_points@[i as int].0@));
                }
                Some((i, parts))
            },
            None => None,
        }
    }

    /// The cluster of the directory that would hold the entry that `parts`
    /// name on volume `i` (see [`parent_cluster`]).
    fn resolve_parent_cluster(&self, i: usize, parts: &Vec<Vec<char>>) -> (r: Option<u32>)
        requires
            self.wf(),
            volumes_fit(self.mount_points@),
            i < self.mount_points@.len(),
            !(parent_path(parts_of(parts@)).len() == 0 || is_root(parts_of(parts@))) ==> lookup_ok(
                self.mount_points@[i as int].1.device@,
                self.mount_points@[i as int].1.fs,
                parent_path(parts_of(parts@)),
            ),
        ensures
            r == parent_cluster(self.mount_points@[i as int].1, parts_of(parts@)),
    {
        let driver = &self.mount_points[i].1;
        let n = parts.len();
        let k = if n == 0 { 0 } else { n - 1 };
        let parent_chars = join_components(parts, k);
        if parent_chars.len() == 0 || is_root_path(parts) {
            Some(driver.fs.root_dir_cluster)
        } else {
            let parent_path = string_of_chars(&parent_chars);
            match driver.get_dir_entry(parent_path.as_str()) {
                Some(entry) => Some(entry.get_cluster()),
                None => None,
            }
        }
    }

    /// Creates an entry of kind `entry_type` at `path`, with the creation
    /// `time` and `date`: nothing where an entry of that path exists, no
    /// volume serves it, or the directory that would hold it is not found;
    /// else in that directory, named by the last part of the path (see
    /// [`created_for`]).
    fn create_entry(&mut self, path: &str, entry_type: EntryType, time: u16, date: u16) -> (r: VfsOutcome)
        requires
            old(self).wf(),
            volumes_fit(old(self).mount_points@),
            entry_lookup_ok(old(self).mount_points@, path@),
            entry_for(old(self).mount_points@, path@) is None ==> (driver_for(old(self).mount_points@, path@) matches Some(p)
                ==> {
                let drv = old(self).mount_points@[p.0].1;
                &&& !(parent_path(p.1).len() == 0 || is_root(p.1)) ==> lookup_ok(
                    drv.device@,
                    drv.fs,
                    parent_path(p.1),
                )
                &&& p.1.len() > 0 ==> (parent_cluster(drv, p.1) matches Some(pc) ==> created_for(
                    entry_type,
                    drv,
                    pc,
                    p.1.last(),
                    time,
                    date,
                ) is Some)
            }),
        ensures
            final(self).wf(),
            final(self).mount_info@ == old(self).mount_info@,
            if entry_for(old(self).mount_points@, path@) is Some {
                r == VfsOutcome::AlreadyExists && final(self).mount_points@ == old(self).mount_points@
            } else {
                match driver_for(old(self).mount_points@, path@) {
                    None => r == VfsOutcome::NoDriver && final(self).mount_points@ == old(self).mount_points@,
                    Some(p) => if p.1.len() == 0 {
                        r == VfsOutcome::NoName && final(self).mount_points@ == old(self).mount_points@
                    } else {
                        match parent_cluster(old(self).mount_points@[p.0].1, p.1) {
                            None => r == VfsOutcome::NoParent && final(self).mount_points@ == old(
                                self,
                            ).mount_points@,
                            Some(pc) => r == VfsOutcome::Done && volume_updated(
                                old(self).mount_points@,
                                final(self).mount_points@,
                                p.0,
                                created_for(
                                    entry_type,
                                    old(self).mount_points@[p.0].1,
                                    pc,
                                    p.1.last(),
                                    time,
                                    date,
                                )->0,
                            ),
                        }
                    },
                }
            },
    {
        if self.path_exists(path) {
            return VfsOutcome::AlreadyExists;
        }
        let (i, parts) = match self.driver_index(path) {
            Some(t) => t,
            None => {
                return VfsOutcome::NoDriver;
            },
        };
        let n = parts.len();
        if n == 0 {
            return VfsOutcome::NoName;
        }
        let parent = match self.resolve_parent_cluster(i, &parts) {
            Some(c) => c,
            None => {
                return VfsOutcome::NoParent;
            },
        };
        let name = string_of_chars(&parts[n - 1]);
        let ghost old_points = self.mount_points@;
        proof {
            assert(parts_of(parts@).last() == parts@[n - 1]@);
        }
        let (key, mut driver) = self.mount_points.remove(i);
        match entry_type {
            EntryType::Directory => driver.create_dir(parent, name.as_str(), time, date),
            EntryType::File => driver.create_file(parent, name.as_str(), time, date),
        }
        self.mount_points.insert(i, (key, driver));
        proof {
            assert(self.mount_points@ =~= old_points.update(i as int, (key, driver)));
        }
        VfsOutcome::Done
    }

    /// Deletes the entry that `path` names (see [`entry_for`]) where it is
    /// of kind `entry_type`: the first byte of its name on disk becomes
    /// the free mark [`ENTRY_FREE`].
    fn delete_entry(&mut self, path: &str, entry_type: EntryType) -> (r: VfsOutcome)
        requires
            old(self).wf(),
            volumes_fit(old(self).mount_points@),
            entry_lookup_ok(old(self).mount_points@, path@),
            entry_for(old(self).mount_points@, path@) matches Some(p) ==> (p.1.3 + 1) * SECTOR_SIZE <= old(
                self,
            ).mount_points@[p.0].1.device@.len() && p.1.2 < SECTOR_SIZE,
        ensures
            final(self).wf(),
            final(self).mount_info@ == old(self).mount_info@,
            match entry_for(old(self).mount_points@, path@) {
                None => r == VfsOutcome::NotFound && final(self).mount_points@ == old(self).mount_points@,
                Some(p) => {
                    let is_dir = p.1.0.attributes & ATTR_DIRECTORY != 0;
                    let deleted = volume_updated(
                        old(self).mount_points@,
                        final(self).mount_points@,
                        p.0,
                        old(self).mount_points@[p.0].1.device@.update(
                            p.1.3 * SECTOR_SIZE + p.1.2,
                            ENTRY_FREE,
                        ),
                    );
                    let unchanged = final(self).mount_points@ == old(self).mount_points@;
                    match entry_type {
                        EntryType::File => if is_dir {
                            r == VfsOutcome::IsDirectory && unchanged
                        } else {
                            r == VfsOutcome::Done && deleted
                        },
                        EntryType::Directory => if is_dir {
                            r == VfsOutcome::Done && deleted
                        } else {
                            r == VfsOutcome::NotDirectory && unchanged
                        },
                    }
                },
            },
    {
        let (i, entry) = match self.get_entry_for_path(path) {
            Some(t) => t,
            None => {
                return VfsOutcome::NotFound;
            },
        };
        let is_dir = entry.is_dir();
        match entry_type {
            EntryType::File => {
                if is_dir {
                    return VfsOutcome::IsDirectory;
                }
            },
            EntryType::Directory => {
                if !is_dir {
                    return VfsOutcome::NotDirectory;
                }
            },
        }
        let ghost old_points = self.mount_points@;
        let (key, mut driver) = self.mount_points.remove(i);
        driver.delete_entry(&entry);
        self.mount_points.insert(i, (key, driver));
        proof {
            assert(self.mount_points@ =~= old_points.update(i as int, (key, driver)));
        }
        VfsOutcome::Done
    }

    /// Creates a directory at `path` (see [`VirtualFileSystem::create_entry`]).
    pub fn create_dir(&mut self, path: &str, time: u16, date: u16) -> (r: VfsOutcome)
        requires
            old(self).wf(),
            volumes_fit(old(self).mount_points@),
            entry_lookup_ok(old(self).mount_points@, path@),
            entry_for(old(self).mount_points@, path@) is None ==> (driver_for(old(self).mount_points@, path@) matches Some(p)
                ==> {
                let drv = old(self).mount_points@[p.0].1;
                &&& !(parent_path(p.1).len() == 0 || is_root(p.1)) ==> lookup_ok(
                    drv.device@,
                    drv.fs,
                    parent_path(p.1),
                )
                &&& p.1.len() > 0 ==> (parent_cluster(drv, p.1) matches Some(pc) ==> created_for(
                    EntryType::Directory,
                    drv,
                    pc,
                    p.1.last(),
                    time,
                    date,
                ) is Some)
            }),
        ensures
            final(self).wf(),
            final(self).mount_info@ == old(self).mount_info@,
            if entry_for(old(self).mount_points@, path@) is Some {
                r == VfsOutcome::AlreadyExists && final(self).mount_points@ == old(self).mount_points@
            } else {
                match driver_for(old(self).mount_points@, path@) {
                    None => r == VfsOutcome::NoDriver && final(self).mount_points@ == old(self).mount_points@,
                    Some(p) => if p.1.len() == 0 {
                        r == VfsOutcome::NoName && final(self).mount_points@ == old(self).mount_points@
                    } else {
                        match parent_cluster(old(self).mount_points@[p.0].1, p.1) {
                            None => r == VfsOutcome::NoParent && final(self).mount_points@ == old(
                                self,
                            ).mount_points@,
                            Some(pc) => r == VfsOutcome::Done && volume_updated(
                                old(self).mount_points@,
                                final(self).mount_points@,
                                p.0,
                                created_for(
                                    EntryType::Directory,
                                    old(self).mount_points@[p.0].1,
                                    pc,
                                    p.1.last(),
                                    time,
                                    date,
                                )->0,
                            ),
                        }
                    },
                }
            },
    {
        self.create_entry(path, EntryType::Directory, time, date)
    }

    /// Creates a file at `path` (see [`VirtualFileSystem::create_entry`]).
    pub fn create_file(&mut self, path: &str, time: u16, date: u16) -> (r: VfsOutcome)
        requires
            old(self).wf(),
            volumes_fit(old(self).mount_points@),
            entry_lookup_ok(old(self).mount_points@, path@),
            entry_for(old(self).mount_points@, path@) is None ==> (driver_for(old(self).mount_points@, path@) matches Some(p)
                ==> {
                let drv = old(self).mount_points@[p.0].1;
                &&& !(parent_path(p.1).len() == 0 || is_root(p.1)) ==> lookup_ok(
                    drv.device@,
                    drv.fs,
                    parent_path(p.1),
                )
                &&& p.1.len() > 0 ==> (parent_cluster(drv, p.1) matches Some(pc) ==> created_for(
                    EntryType::File,
                    drv,
                    pc,
                    p.1.last(),
                    time,
                    date,
                ) is Some)
            }),
        ensures
            final(self).wf(),
            final(self).mount_info@ == old(self).mount_info@,
            if entry_for(old(self).mount_points@, path@) is Some {
                r == VfsOutcome::AlreadyExists && final(self).mount_points@ == old(self).mount_points@
            } else {
                match driver_for(old(self).mount_points@, path@) {
                    None => r == VfsOutcome::NoDriver && final(self).mount_points@ == old(self).mount_points@,
                    Some(p) => if p.1.len() == 0 {
                        r == VfsOutcome::NoName && final(self).mount_points@ == old(self).mount_points@
                    } else {
                        match parent_cluster(old(self).mount_points@[p.0].1, p.1) {
                            None => r == VfsOutcome::NoParent && final(self).mount_points@ == old(
                                self,
                            ).mount_points@,
                            Some(pc) => r == VfsOutcome::Done && volume_updated(
                                old(self).mount_points@,
                                final(self).mount_points@,
                                p.0,
                                created_for(
                                    EntryType::File,
                                    old(self).mount_points@[p.0].1,
                                    pc,
                                    p.1.last(),
                                    time,
                                    date,
                                )->0,
                            ),
                        }
                    },
                }
            },
    {
        self.create_entry(path, EntryType::File, time, date)
    }

    /// Deletes the directory at `path` (see [`VirtualFileSystem::delete_entry`]).
    pub fn remove_dir(&mut self, path: &str) -> (r: VfsOutcome)
        requires
            old(self).wf(),
            volumes_fit(old(self).mount_points@),
            entry_lookup_ok(old(self).mount_points@, path@),
            entry_for(old(self).mount_points@, path@) matches Some(p) ==> (p.1.3 + 1) * SECTOR_SIZE <= old(
                self,
            ).mount_points@[p.0].1.device@.len() && p.1.2 < SECTOR_SIZE,
        ensures
            final(self).wf(),
            final(self).mount_info@ == old(self).mount_info@,
            match entry_for(old(self).mount_points@, path@) {
                None => r == VfsOutcome::NotFound && final(self).mount_points@ == old(self).mount_points@,
                Some(p) => if p.1.0.attributes & ATTR_DIRECTORY != 0 {
                    r == VfsOutcome::Done && volume_updated(
                        old(self).mount_points@,
                        final(self).mount_points@,
                        p.0,
                        old(self).mount_points@[p.0].1.device@.update(p.1.3 * SECTOR_SIZE + p.1.2, ENTRY_FREE),
                    )
                } else {
                    r == VfsOutcome::NotDirectory && final(self).mount_points@ == old(self).mount_points@
                },
            },
    {
        self.delete_entry(path, EntryType::Directory)
    }

    /// Deletes the file at `path` (see [`VirtualFileSystem::delete_entry`]).
    pub fn remove_file(&mut self, path: &str) -> (r: VfsOutcome)
        requires
            old(self).wf(),
            volumes_fit(old(self).mount_points@),
            entry_lookup_ok(old(self).mount_points@, path@),
            entry_for(old(self).mount_points@, path@) matches Some(p) ==> (p.1.3 + 1) * SECTOR_SIZE <= old(
                self,
            ).mount_points@[p.0].1.device@.len() && p.1.2 < SECTOR_SIZE,
        ensures
            final(self).wf(),
            final(self).mount_info@ == old(self).mount_info@,
            match entry_for(old(self).mount_points@, path@) {
                None => r == VfsOutcome::NotFound && final(self).mount_points@ == old(self).mount_points@,
                Some(p) => if p.1.0.attributes & ATTR_DIRECTORY != 0 {
                    r == VfsOutcome::IsDirectory && final(self).mount_points@ == old(self).mount_points@
                } else {
                    r == VfsOutcome::Done && volume_updated(
                        old(self).mount_points@,
                        final(self).mount_points@,
                        p.0,
                        old(self).mount_points@[p.0].1.device@.update(p.1.3 * SECTOR_SIZE + p.1.2, ENTRY_FREE),
                    )
                },
            },
    {
        self.delete_entry(path, EntryType::File)
    }

    /// Writes the first `size` bytes of `data` into the file that `path`
    /// names (see [`written_disk`]); nothing where no entry has that path or
    /// it is a directory.
    pub fn write_file(&mut self, path: &str, data: &[u8], size: usize) -> (r: VfsOutcome)
        requires
            old(self).wf(),
            volumes_fit(old(self).mount_points@),
            entry_lookup_ok(old(self).mount_points@, path@),
            entry_for(old(self).mount_points@, path@) matches Some(p) ==> (p.1.0.attributes & ATTR_DIRECTORY == 0
                ==> write_ok(old(self).mount_points@[p.0].1, p.1, data@, size)),
        ensures
            final(self).wf(),
            final(self).mount_info@ == old(self).mount_info@,
            match entry_for(old(self).mount_points@, path@) {
                None => r == VfsOutcome::NotFound && final(self).mount_points@ == old(self).mount_points@,
                Some(p) => if p.1.0.attributes & ATTR_DIRECTORY != 0 {
                    r == VfsOutcome::IsDirectory && final(self).mount_points@ == old(self).mount_points@
                } else {
                    r == VfsOutcome::Done && volume_updated(
                        old(self).mount_points@,
                        final(self).mount_points@,
                        p.0,
                        written_disk(old(self).mount_points@[p.0].1, p.1, data@, size),
                    )
                },
            },
    {
        let (i, mut entry) = match self.get_entry_for_path(path) {
            Some(t) => t,
            None => {
                return VfsOutcome::NotFound;
            },
        };
        if entry.is_dir() {
            return VfsOutcome::IsDirectory;
        }
        let ghost old_points = self.mount_points@;
        let (key, mut driver) = self.mount_points.remove(i);
        driver.write_file(&mut entry, data, size);
        self.mount_points.insert(i, (key, driver));
        proof {
            assert(self.mount_points@ =~= old_points.update(i as int, (key, driver)));
        }
        VfsOutcome::Done
    }

    /// The bytes of the file that `path` names (see [`entry_for`]): the
    /// clusters of its chain; `None` where no entry has that path.
    pub fn read_file(&self, path: &str) -> (r: Option<Vec<u8>>)
        requires
            self.wf(),
            volumes_fit(self.mount_points@),
            entry_lookup_ok(self.mount_points@, path@),
            entry_for(self.mount_points@, path@) matches Some(p) ==> file_chain(
                self.mount_points@[p.0].1.device@,
                self.mount_points@[p.0].1.fs,
                entry_cluster(p.1.0),
                self.mount_points@[p.0].1.fs.total_clusters as nat,
            ) is Some,
        ensures
            match entry_for(self.mount_points@, path@) {
                None => r is None,
                Some(p) => r matches Some(data) && data@ == clusters_bytes(
                    self.mount_points@[p.0].1.device@,
                    self.mount_points@[p.0].1.fs,
                    file_chain(
                        self.mount_points@[p.0].1.device@,
                        self.mount_points@[p.0].1.fs,
                        entry_cluster(p.1.0),
                        self.mount_points@[p.0].1.fs.total_clusters as nat,
                    )->0,
                ),
            },
    {
        match self.get_entry_for_path(path) {
            Some((i, entry)) => {
                let cluster = entry.get_cluster();
                Some(self.mount_points[i].1.read_file(cluster))
            },
            None => None,
        }
    }
}

} // verus!
