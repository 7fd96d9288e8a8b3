use vstd::prelude::*;
use crate::fs::disk::{le16, le32, read_u16, read_u32};
use crate::fs::fat::fat_driver::{ATTR_DIRECTORY, ENTRY_END, ENTRY_FREE};

verus! {

/// An entry of a directory in the 8.3 form: 32 bytes on disk.
#[derive(Debug, Clone, Copy)]
pub struct DirectoryEntry {
    /// The short name: 8 bytes of name and 3 of extension, padded with spaces.
    pub name: [u8; 11],
    /// The attribute bits (read-only, hidden, system, volume, directory, archive).
    pub attributes: u8,
    /// Reserved: zero.
    pub reserved: u8,
    /// Tenths of a second of the creation time.
    pub creation_time_tenths: u8,
    /// The creation time, in the form of the file system.
    pub creation_time: u16,
    /// The creation date, in the form of the file system.
    pub creation_date: u16,
    /// The date of last access.
    pub access_date: u16,
    /// The high 16 bits of the first cluster.
    pub high_cluster: u16,
    /// The time of last change.
    pub modification_time: u16,
    /// The date of last change.
    pub modification_date: u16,
    /// The low 16 bits of the first cluster.
    pub low_cluster: u16,
    /// The size of the file in bytes; 0 for a directory.
    pub size: u32,
}

/// The 11 bytes of the name of the "." entry.
pub open spec fn dot_name() -> Seq<u8> {
    seq![0x2Eu8, 0x20, 0x20, 0x20, 0x20, 0x20, 0x20, 0x20, 0x20, 0x20, 0x20]
}

/// Whether `e` is a directory entry named `name` (11 bytes), of the
/// directory at `cluster`, with only its attributes set besides.
pub open spec fn is_dot_entry(e: DirectoryEntry, name: Seq<u8>, cluster: u32) -> bool {
    &&& e.name@ == name
    &&& e.attributes == ATTR_DIRECTORY
    &&& e.reserved == 0
    &&& e.creation_time_tenths == 0
    &&& e.creation_time == 0
    &&& e.creation_date == 0
    &&& e.access_date == 0
    &&& e.high_cluster == (cluster >> 16u32) as u16
    &&& e.modification_time == 0
    &&& e.modification_date == 0
    &&& e.low_cluster == (cluster & 0xFFFF) as u16
    &&& e.size == 0
}

/// Whether `e` is the entry held in the 32 bytes of `b` at `off`, fields in
/// little-endian order at their places.
pub open spec fn is_entry_at(e: DirectoryEntry, b: Seq<u8>, off: int) -> bool {
    &&& e.name@ == b.subrange(off, off + 11)
    &&& e.attributes == b[off + 11]
    &&& e.reserved == b[off + 12]
    &&& e.creation_time_tenths == b[off + 13]
    &&& e.creation_time == le16(b, off + 14)
    &&& e.creation_date == le16(b, off + 16)
    &&& e.access_date == le16(b, off + 18)
    &&& e.high_cluster == le16(b, off + 20)
    &&& e.modification_time == le16(b, off + 22)
    &&& e.modification_date == le16(b, off + 24)
    &&& e.low_cluster == le16(b, off + 26)
    &&& e.size == le32(b, off + 28)
}

/// The two little-endian bytes of `v`.
pub open spec fn u16_bytes(v: u16) -> Seq<u8> {
    seq![(v % 256) as u8, (v / 256) as u8]
}

/// The 32 bytes of `e` on disk, fields in little-endian order.
pub open spec fn entry_bytes(e: DirectoryEntry) -> Seq<u8> {
    e.name@ + seq![e.attributes, e.reserved, e.creation_time_tenths] + u16_bytes(e.creation_time)
        + u16_bytes(e.creation_date) + u16_bytes(e.access_date) + u16_bytes(e.high_cluster)
        + u16_bytes(e.modification_time) + u16_bytes(e.modification_date) + u16_bytes(e.low_cluster)
        + u16_bytes((e.size % 65536) as u16) + u16_bytes((e.size / 65536) as u16)
}

/// The entry held in the 32 bytes of `b` at `off`.
pub open spec fn entry_at(b: Seq<u8>, off: int) -> DirectoryEntry {
    DirectoryEntry {
        name: [
            b[off],
            b[off + 1],
            b[off + 2],
            b[off + 3],
            b[off + 4],
            b[off + 5],
            b[off + 6],
            b[off + 7],
            b[off + 8],
            b[off + 9],
            b[off + 10],
        ],
        attributes: b[off + 11],
        reserved: b[off + 12],
        creation_time_tenths: b[off + 13],
        creation_time: le16(b, off + 14) as u16,
        creation_date: le16(b, off + 16) as u16,
        access_date: le16(b, off + 18) as u16,
        high_cluster: le16(b, off + 20) as u16,
        modification_time: le16(b, off + 22) as u16,
        modification_date: le16(b, off + 24) as u16,
        low_cluster: le16(b, off + 26) as u16,
        size: le32(b, off + 28) as u32,
    }
}

impl DirectoryEntry {
    /// A new entry named `short_name`, starting at `cluster`, with
    /// `attributes`, created at `creation_time` on `creation_date`, of size 0.
    pub fn new(
        short_name: [u8; 11],
        cluster: u32,
        attributes: u8,
        creation_time: u16,
        creation_date: u16,
    ) -> (e: Self)
        ensures
            e.name@ == short_name@,
            e.attributes == attributes,
            e.reserved == 0,
            e.creation_time_tenths == 100,
            e.creation_time == creation_time,
            e.creation_date == creation_date,
            e.access_date == 0,
            e.high_cluster == (cluster >> 16u32) as u16,
            e.modification_time == 0,
            e.modification_date == 0,
            e.low_cluster == (cluster & 0xFFFF) as u16,
            e.size == 0,
    {
        DirectoryEntry {
            name: short_name,
            attributes,
            reserved: 0,
            creation_time_tenths: 100,
            creation_time,
            creation_date,
            access_date: 0,
            high_cluster: (cluster >> 16) as u16,
            modification_time: 0,
            modification_date: 0,
            low_cluster: (cluster & 0xFFFF) as u16,
            size: 0,
        }
    }

    /// Whether the entry is free: it ends the directory or was freed.
    pub fn is_free(&self) -> (b: bool)
        ensures
            b == (self.name@[0] == ENTRY_END || self.name@[0] == ENTRY_FREE),
    {
        self.name[0] == ENTRY_END || self.name[0] == ENTRY_FREE
    }

    /// Sets the creation time and date to `creation_time` and `creation_date`.
    pub fn update_metadata(&mut self, creation_time: u16, creation_date: u16)
        ensures
            *final(self) == (DirectoryEntry { creation_time, creation_date, ..*old(self) }),
    {
        self.creation_time = creation_time;
        self.creation_date = creation_date;
    }

    /// The "." entry of a new directory at `new_dir_cluster`: it points at
    /// the directory itself.
    pub fn create_dot_entry(new_dir_cluster: u32) -> (e: DirectoryEntry)
        ensures
            is_dot_entry(e, dot_name(), new_dir_cluster),
    {
        let e = DirectoryEntry {
            name: [0x2E, 0x20, 0x20, 0x20, 0x20, 0x20, 0x20, 0x20, 0x20, 0x20, 0x20],
            attributes: ATTR_DIRECTORY,
            reserved: 0,
            creation_time_tenths: 0,
            creation_time: 0,
            creation_date: 0,
            access_date: 0,
            high_cluster: (new_dir_cluster >> 16) as u16,
            modification_time: 0,
            modification_date: 0,
            low_cluster: (new_dir_cluster & 0xFFFF) as u16,
            size: 0,
        };
        assert(e.name@ =~= dot_name());
        e
    }

    /// The ".." entry of a new directory whose parent is at
    /// `parent_cluster`: it points at the parent.
    pub fn create_dotdot_entry(parent_cluster: u32) -> (e: DirectoryEntry)
        ensures
            is_dot_entry(e, dot_name().update(1, 0x2E), parent_cluster),
    {
        let mut entry = Self::create_dot_entry(parent_cluster);
        entry.name[1] = 0x2E;
        assert(entry.name@ =~= dot_name().update(1, 0x2E));
        entry
    }

    /// The entry held in the 32 bytes of `b` at `off`.
    pub fn from_bytes(b: &[u8], off: usize) -> (e: Self)
        requires
            off + 32 <= b@.len(),
        ensures
            is_entry_at(e, b@, off as int),
            e == entry_at(b@, off as int),
    {
        let _len = b.len();
        let e = DirectoryEntry {
            name: [
                b[off],
                b[off + 1],
                b[off + 2],
                b[off + 3],
                b[off + 4],
                b[off + 5],
                b[off + 6],
                b[off + 7],
                b[off + 8],
                b[off + 9],
                b[off + 10],
            ],
            attributes: b[off + 11],
            reserved: b[off + 12],
            creation_time_tenths: b[off + 13],
            creation_time: read_u16(b, off + 14),
            creation_date: read_u16(b, off + 16),
            access_date: read_u16(b, off + 18),
            high_cluster: read_u16(b, off + 20),
            modification_time: read_u16(b, off + 22),
            modification_date: read_u16(b, off + 24),
            low_cluster: read_u16(b, off + 26),
            size: read_u32(b, off + 28),
        };
        assert(e.name@ =~= b@.subrange(off as int, off + 11));
        e
    }

    /// The 32 bytes of the entry, fields in little-endian order.
    pub fn to_bytes(&self) -> (b: Vec<u8>)
        ensures
            b@.len() == 32,
            b@ == entry_bytes(*self),
            is_entry_at(*self, b@, 0),
    {
        let mut b: Vec<u8> = Vec::new();
        let mut i: usize = 0;
        while i < 11
            invariant
                i <= 11,
                b@ == self.name@.subrange(0, i as int),
            decreases 11 - i,
        {
            b.push(self.name[i]);
            i = i + 1;
        }
        b.push(self.attributes);
        b.push(self.reserved);
        b.push(self.creation_time_tenths);
        push_u16(&mut b, self.creation_time);
        push_u16(&mut b, self.creation_date);
        push_u16(&mut b, self.access_date);
        push_u16(&mut b, self.high_cluster);
        push_u16(&mut b, self.modification_time);
        push_u16(&mut b, self.modification_date);
        push_u16(&mut b, self.low_cluster);
        push_u16(&mut b, (self.size % 65536) as u16);
        push_u16(&mut b, (self.size / 65536) as u16);
        assert(b@.subrange(0, 11) =~= self.name@);
        assert(le16(b@, 14) == self.creation_time);
        assert(le16(b@, 16) == self.creation_date);
        assert(le16(b@, 18) == self.access_date);
        assert(le16(b@, 20) == self.high_cluster);
        assert(le16(b@, 22) == self.modification_time);
        assert(le16(b@, 24) == self.modification_date);
        assert(le16(b@, 26) == self.low_cluster);
        assert(le32(b@, 28) == self.size);
        assert(b@ =~= entry_bytes(*self));
        b
    }
}

/// Appends the two little-endian bytes of `v` to `b`.
pub fn push_u16(b: &mut Vec<u8>, v: u16)
    ensures
        final(b)@ == old(b)@.push((v % 256) as u8).push((v / 256) as u8),
        le16(final(b)@, old(b)@.len() as int) == v,
{
    b.push((v % 256) as u8);
    b.push((v / 256) as u8);
}

} // verus!
