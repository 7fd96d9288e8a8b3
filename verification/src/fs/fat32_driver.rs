pub use crate::fs::fat::boot_sector::Fat32BootSector as FAT32_BootSector;

use vstd::prelude::*;
use crate::fs::disk::Disk;

verus! {

/// A driver of a FAT32 volume: the disk it reads.
pub struct Fat32Driver {
    /// The disk.
    pub device: Disk,
}

} // verus!
