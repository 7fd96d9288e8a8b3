use vstd::prelude::*;
use crate::fs::fat::fat_driver::{ATTR_DIRECTORY, ENTRY_END, ENTRY_FREE};
use crate::fs::fat::{checksum_upto, short_name_of};

verus! {

/// An entry of a directory in the 8.3 form: 32 bytes on disk.
#[derive(Debug, Clone, Copy)]
pub struct DirectoryEntry {
    /// The short name: 8 bytes of name and 3 of extension, padded with spaces.
    pub name: [u8; 11],
    /// The attribute bits (read-only, hidden, system, volume, directory, archive).
    pub attributes: u8,
    /// Reserved: zero.
    pub reserved: u8,
    /// Tenths of a second of the creation time.
    pub creation_time_tenths: u8,
    /// The creation time, in the form of the file system.
    pub creation_time: u16,
    /// The creation date, in the form of the file system.
    pub creation_date: u16,
    /// The date of last access.
    pub access_date: u16,
    /// The high 16 bits of the first cluster.
    pub high_cluster: u16,
    /// The time of last change.
    pub modification_time: u16,
    /// The date of last change.
    pub modification_date: u16,
    /// The low 16 bits of the first cluster.
    pub low_cluster: u16,
    /// The size of the file in bytes; 0 for a directory.
    pub size: u32,
}

/// The 11 bytes of the name of the "." entry.
pub open spec fn dot_name() -> Seq<u8> {
    seq![0x2Eu8, 0x20, 0x20, 0x20, 0x20, 0x20, 0x20, 0x20, 0x20, 0x20, 0x20]
}

/// Whether `e` is a directory entry named `name` (11 bytes), of the
/// directory at `cluster`, with only its attributes set besides.
pub open spec fn is_dot_entry(e: DirectoryEntry, name: Seq<u8>, cluster: u32) -> bool {
    &&& e.name@ == name
    &&& e.attributes == ATTR_DIRECTORY
    &&& e.reserved == 0
    &&& e.creation_time_tenths == 0
    &&& e.creation_time == 0
    &&& e.creation_date == 0
    &&& e.access_date == 0
    &&& e.high_cluster == (cluster >> 16u32) as u16
    &&& e.modification_time == 0
    &&& e.modification_date == 0
    &&& e.low_cluster == (cluster & 0xFFFF) as u16
    &&& e.size == 0
}

impl DirectoryEntry {
    /// A new entry named `short_name`, starting at `cluster`, with
    /// `attributes`, created at `creation_time` on `creation_date`, of size 0.
    pub fn new(
        short_name: [u8; 11],
        cluster: u32,
        attributes: u8,
        creation_time: u16,
        creation_date: u16,
    ) -> (e: Self)
        ensures
            e.name@ == short_name@,
            e.attributes == attributes,
            e.reserved == 0,
            e.creation_time_tenths == 100,
            e.creation_time == creation_time,
            e.creation_date == creation_date,
            e.access_date == 0,
            e.high_cluster == (cluster >> 16u32) as u16,
            e.modification_time == 0,
            e.modification_date == 0,
            e.low_cluster == (cluster & 0xFFFF) as u16,
            e.size == 0,
    {
        DirectoryEntry {
            name: short_name,
            attributes,
            reserved: 0,
            creation_time_tenths: 100,
            creation_time,
            creation_date,
            access_date: 0,
            high_cluster: (cluster >> 16) as u16,
            modification_time: 0,
            modification_date: 0,
            low_cluster: (cluster & 0xFFFF) as u16,
            size: 0,
        }
    }

    /// Whether the entry is free: it ends the directory or was freed.
    pub fn is_free(&self) -> (b: bool)
        ensures
            b == (self.name@[0] == ENTRY_END || self.name@[0] == ENTRY_FREE),
    {
        self.name[0] == ENTRY_END || self.name[0] == ENTRY_FREE
    }

    /// Sets the creation time and date to `creation_time` and `creation_date`.
    pub fn update_metadata(&mut self, creation_time: u16, creation_date: u16)
        ensures
            *final(self) == (DirectoryEntry { creation_time, creation_date, ..*old(self) }),
    {
        self.creation_time = creation_time;
        self.creation_date = creation_date;
    }

    /// The "." entry of a new directory at `new_dir_cluster`: it points at
    /// the directory itself.
    pub fn create_dot_entry(new_dir_cluster: u32) -> (e: DirectoryEntry)
        ensures
            is_dot_entry(e, dot_name(), new_dir_cluster),
    {
        let e = DirectoryEntry {
            name: [0x2E, 0x20, 0x20, 0x20, 0x20, 0x20, 0x20, 0x20, 0x20, 0x20, 0x20],
            attributes: ATTR_DIRECTORY,
            reserved: 0,
            creation_time_tenths: 0,
            creation_time: 0,
            creation_date: 0,
            access_date: 0,
            high_cluster: (new_dir_cluster >> 16) as u16,
            modification_time: 0,
            modification_date: 0,
            low_cluster: (new_dir_cluster & 0xFFFF) as u16,
            size: 0,
        };
        assert(e.name@ =~= dot_name());
        e
    }

    /// The ".." entry of a new directory whose parent is at
    /// `parent_cluster`: it points at the parent.
    pub fn create_dotdot_entry(parent_cluster: u32) -> (e: DirectoryEntry)
        ensures
            is_dot_entry(e, dot_name().update(1, 0x2E), parent_cluster),
    {
        let mut entry = Self::create_dot_entry(parent_cluster);
        entry.name[1] = 0x2E;
        assert(entry.name@ =~= dot_name().update(1, 0x2E));
        entry
    }

    /// The 8.3 short name of `name` (see [`crate::fs::fat::short_name_upto`]).
    pub fn create_short_filename(name: &str) -> (short_name: [u8; 11])
        ensures
            short_name@ == short_name_of(name@),
    {
        crate::fs::fat::create_short_filename(name)
    }

    /// The checksum of a short name that ties long name entries to it.
    pub fn calculate_checksum(short_name: &[u8]) -> (checksum: u8)
        ensures
            checksum == checksum_upto(short_name@, short_name@.len()),
    {
        crate::fs::fat::calculate_checksum(short_name)
    }
}

} // verus!
