use vstd::prelude::*;
use crate::fs::fat32::DirectoryEntry;

verus! {

/// An entry found in a directory, with its name and its place on disk.
pub struct VfsEntry {
    /// The entry as on disk.
    pub entry: DirectoryEntry,
    /// The name of the file or directory.
    pub name: String,
    /// The sector that holds the entry.
    pub sector: u32,
    /// The place of the entry in its sector, in bytes.
    pub offset: u32,
}

impl VfsEntry {
    /// The first cluster of the entry: the high and low halves of its
    /// cluster number combined by a bitwise or, without shifting.
    pub fn get_cluster(&self) -> (c: u32)
        ensures
            c == (self.entry.high_cluster as u32) | (self.entry.low_cluster as u32),
    {
        self.entry.high_cluster as u32 | self.entry.low_cluster as u32
    }
}

} // verus!
