use vstd::prelude::*;
use crate::fs::disk::{Disk, SECTOR_SIZE};
use crate::fs::fat::fat_driver::{mountable, FatDriver};
use crate::fs::mount::key_index;
use crate::fs::vfs::{
    dir_read, dir_read_ok, driver_for, mount_outcome, parts_of, volumes_fit, VfsOutcome, VirtualFileSystem,
};
use crate::fs::vfs_dir_entry::VfsDirectoryEntry;

verus! {

/// A file system of mounted volumes, each path served by the volume mounted
/// at its longest prefix.
pub struct FileSystem {
    /// The mount points and what is known of them.
    pub table: VirtualFileSystem,
}

impl FileSystem {
    /// Whether the tables of mount points are well formed (see
    /// [`VirtualFileSystem::wf`]).
    pub open spec fn wf(&self) -> bool {
        self.table.wf()
    }

    /// A file system with nothing mounted.
    pub fn new() -> (f: Self)
        ensures
            f.wf(),
            f.table.mount_points@.len() == 0,
            f.table.mount_info@.len() == 0,
    {
        FileSystem { table: VirtualFileSystem::new() }
    }

    /// Mounts the volume on `device` at `path` (see [`mount_outcome`]).
    pub fn mount(&mut self, device: Option<Disk>, device_name: &str, path: &str, driver_name: &str) -> (r: VfsOutcome)
        requires
            old(self).wf(),
            device matches Some(d) ==> d@.len() >= SECTOR_SIZE && mountable(d@.subrange(0, 512)),
        ensures
            final(self).wf(),
            mount_outcome(
                old(self).table.mount_points@,
                old(self).table.mount_info@,
                final(self).table.mount_points@,
                final(self).table.mount_info@,
                device,
                device_name@,
                path@,
                driver_name@,
                r,
            ),
    {
        self.table.mount(device, device_name, path, driver_name)
    }

    /// Unmounts the volume mounted at `path`, where there is one.
    pub fn unmount(&mut self, path: &str)
        requires
            old(self).wf(),
        ensures
            final(self).wf(),
            match key_index(old(self).table.mount_points@, path@) {
                Some(i) => final(self).table.mount_points@ == old(self).table.mount_points@.remove(i)
                    && final(self).table.mount_info@ == old(self).table.mount_info@.remove(i),
                None => final(self).table.mount_points@ == old(self).table.mount_points@
                    && final(self).table.mount_info@ == old(self).table.mount_info@,
            },
    {
        self.table.unmount(path)
    }

    /// The volume that serves `path`, with the parts of the path below its
    /// mount point (see [`driver_for`]).
    pub fn get_driver(&self, path: &str) -> (r: Option<(&FatDriver, Vec<Vec<char>>)>)
        requires
            self.wf(),
        ensures
            match driver_for(self.table.mount_points@, path@) {
                Some(p) => r matches Some(q) && *q.0 == self.table.mount_points@[p.0].1 && parts_of(q.1@)
                    == p.1,
                None => r is None,
            },
    {
        self.table.get_driver(path)
    }

    /// The entries of the directory that `path` leads to (see [`dir_read`]).
    pub fn list_directory(&self, path: &str) -> (r: Option<Vec<VfsDirectoryEntry>>)
        requires
            self.wf(),
            volumes_fit(self.table.mount_points@),
            dir_read_ok(self.table.mount_points@, path@),
        ensures
            dir_read(self.table.mount_points@, path@, r),
    {
        self.table.read_dir(path)
    }
}

} // verus!
