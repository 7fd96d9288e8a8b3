pub mod disk;
pub mod entry;
pub mod fat;
pub mod fat32;
pub mod fat32_driver;
pub mod fs2;
pub mod mount;
pub mod node;
pub mod text;
pub mod vfs;
pub mod vfs_dir_entry;
pub mod vfs_directory_entry;
pub mod vsf_manager;

pub use crate::fs::mount::MountInfo;

use vstd::prelude::*;
use crate::fs::disk::{Disk, SECTOR_SIZE};
use crate::fs::fat::fat_driver::{layout_of, mountable, FatDriver};
use crate::fs::mount::{find_key, insert_key, key_index, key_set, keys_unique, lemma_key_index, lemma_key_index_has, remove_key, has_key};

verus! {

/// A file system of volumes mounted at paths, each looked up by its exact
/// path.
pub struct VirtualFileSystem {
    /// The volumes, by the path they are mounted at.
    pub mount_points: Vec<(String, FatDriver)>,
    /// What is known of each mount point, by its path.
    pub mount_info: Vec<(String, MountInfo)>,
}

impl VirtualFileSystem {
    /// Each path is mounted once, and both tables list the same paths in
    /// the same order.
    pub open spec fn wf(&self) -> bool {
        &&& keys_unique(self.mount_points@)
        &&& keys_unique(self.mount_info@)
        &&& self.mount_points@.len() == self.mount_info@.len()
        &&& forall|i: int|
            0 <= i < self.mount_points@.len() ==> (#[trigger] self.mount_points@[i]).0@
                == self.mount_info@[i].0@
    }

    /// A file system with nothing mounted.
    pub fn new() -> (v: Self)
        ensures
            v.wf(),
            v.mount_points@.len() == 0,
            v.mount_info@.len() == 0,
    {
        VirtualFileSystem { mount_points: Vec::new(), mount_info: Vec::new() }
    }

    /// Mounts the volume on `device` at `path` with the driver named
    /// `driver_name`, in place of what was mounted there: the volume, with
    /// the layout that its boot sector describes, and what is known of it,
    /// its device named "AHCI".
    pub fn mount(&mut self, device: Disk, path: String, driver_name: String)
        requires
            old(self).wf(),
            device@.len() >= SECTOR_SIZE,
            mountable(device@.subrange(0, 512)),
        ensures
            final(self).wf(),
            key_set(
                old(self).mount_points@,
                final(self).mount_points@,
                path@,
                |d: FatDriver| d.device@ == device@ && d.fs == layout_of(device@.subrange(0, 512)),
            ),
            key_set(
                old(self).mount_info@,
                final(self).mount_info@,
                path@,
                |m: MountInfo| m.device@ == "AHCI"@ && m.target@ == path@ && m.driver@ == driver_name@,
            ),
    {
        let ghost pts = self.mount_points@;
        let ghost inf = self.mount_info@;
        let ghost k = path@;
        proof {
            lemma_key_index_has(pts, k);
            lemma_key_index_has(inf, k);
            if let Some(i) = key_index(pts, k) {
                assert(has_key(inf, k, i));
                lemma_key_index(inf, k, i);
            } else if let Some(i) = key_index(inf, k) {
                assert(has_key(pts, k, i));
            }
        }
        let driver = FatDriver::mount(device);
        insert_key(&mut self.mount_points, path.clone(), driver);
        let info = MountInfo { device: "AHCI".to_owned(), target: path.clone(), driver: driver_name };
        insert_key(&mut self.mount_info, path, info);
        proof {
            if key_index(pts, k) is None {
                assert(self.mount_points@.drop_last() =~= pts);
                assert(self.mount_info@.drop_last() =~= inf);
            }
        }
    }

    /// Unmounts the volume mounted at `path`, where there is one.
    pub fn unmount(&mut self, path: String)
        requires
            old(self).wf(),
        ensures
            final(self).wf(),
            match key_index(old(self).mount_points@, path@) {
                Some(i) => final(self).mount_points@ == old(self).mount_points@.remove(i)
                    && final(self).mount_info@ == old(self).mount_info@.remove(i),
                None => final(self).mount_points@ == old(self).mount_points@ && final(self).mount_info@ == old(
                    self,
                ).mount_info@,
            },
    {
        let ghost pts = self.mount_points@;
        let ghost inf = self.mount_info@;
        proof {
            lemma_key_index_has(pts, path@);
            lemma_key_index_has(inf, path@);
            if let Some(i) = key_index(pts, path@) {
                assert(has_key(inf, path@, i));
                lemma_key_index(inf, path@, i);
            } else if let Some(i) = key_index(inf, path@) {
                assert(has_key(pts, path@, i));
            }
        }
        remove_key(&mut self.mount_points, path.as_str());
        remove_key(&mut self.mount_info, path.as_str());
        proof {
            if let Some(i) = key_index(pts, path@) {
                assert forall|j: int| 0 <= j < self.mount_points@.len() implies (#[trigger] self.mount_points@[j]).0@
                    == self.mount_info@[j].0@ by {
                    if j < i {
                        assert(self.mount_points@[j] == pts[j] && self.mount_info@[j] == inf[j]);
                    } else {
                        assert(self.mount_points@[j] == pts[j + 1] && self.mount_info@[j] == inf[j + 1]);
                    }
                }
            }
        }
    }

    /// The volume mounted at exactly `path`.
    pub fn get_driver(&self, path: &str) -> (r: Option<&FatDriver>)
        requires
            self.wf(),
        ensures
            match key_index(self.mount_points@, path@) {
                Some(i) => r matches Some(d) && *d == self.mount_points@[i].1,
                None => r is None,
            },
    {
        match find_key(&self.mount_points, path) {
            Some(i) => Some(&self.mount_points[i].1),
            None => None,
        }
    }

    /// Reading into `buffer` is not done: the buffer is left as it is.
    pub fn read(&self, path: &str, buffer: &mut Vec<u8>)
        ensures
            final(buffer)@ == old(buffer)@,
    {
    }
}

} // verus!
