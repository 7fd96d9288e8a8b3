use vstd::prelude::*;

verus! {

/// An entry of a file system as listed to its users.
#[derive(Clone, Copy)]
pub struct VfsEntry {
    /// The name, in bytes.
    pub name: [u8; 255],
    /// The size in bytes.
    pub size: u32,
    /// Whether the entry is a directory.
    pub is_dir: bool,
    /// When it was created.
    pub creation_time: VfsEntryCreationTime,
    /// The day it was created.
    pub creation_date: VfsEntryCreationDate,
}

/// A time of day.
#[derive(Clone, Copy)]
pub struct VfsEntryCreationTime {
    /// Seconds.
    pub seconds: u8,
    /// Minutes.
    pub minutes: u8,
    /// Hours.
    pub hours: u8,
}

/// A day.
#[derive(Clone, Copy)]
pub struct VfsEntryCreationDate {
    /// The day of the month.
    pub day: u8,
    /// The month.
    pub month: u8,
    /// The year.
    pub year: u16,
}

} // verus!
