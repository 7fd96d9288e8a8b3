pub mod fat32_driver;

pub use crate::fs::fat::boot_sector::Fat32BootSector;
pub use crate::fs::fat::dir_entry::DirectoryEntry;
pub use crate::fs::fat::long_dir_entry::LongDirectoryEntry;

use vstd::prelude::*;

verus! {

/// The FSInfo sector of a FAT32 volume: its signatures and the counts it
/// keeps of free clusters.
pub struct Fat32FsInfo {
    /// The lead signature, 0x41615252.
    pub lead_signature: u32,
    /// Reserved: 480 bytes.
    pub reserved0: Vec<u8>,
    /// The structure signature, 0x61417272.
    pub structure_signature: u32,
    /// The last known count of free clusters.
    pub free_cluster_count: u32,
    /// Where to start looking for a free cluster.
    pub next_free_cluster: u32,
    /// Reserved: 12 bytes.
    pub reserved1: [u8; 12],
    /// The trail signature, 0xAA550000.
    pub trail_signature: u32,
}

} // verus!
