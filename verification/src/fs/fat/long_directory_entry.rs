use vstd::prelude::*;

verus! {

/// An entry of a long file name: 13 UTF-16 units of the name, in three
/// parts, tied by a checksum to the short name entry that follows.
#[derive(Debug, Clone, Copy)]
pub struct LongDirectoryEntry {
    /// The place of the entry in the sequence, from 1; 0x40 marks the last.
    pub order: u8,
    /// Units 0 to 4 of the entry's part of the name.
    pub name1: [u16; 5],
    /// The attributes: 0x0F.
    pub attributes: u8,
    /// Reserved: zero.
    pub reserved1: u8,
    /// The checksum of the short name.
    pub checksum: u8,
    /// Units 5 to 10 of the entry's part of the name.
    pub name2: [u16; 6],
    /// Reserved: zero.
    pub reserved2: u16,
    /// Units 11 and 12 of the entry's part of the name.
    pub name3: [u16; 2],
}

impl Default for LongDirectoryEntry {
    fn default() -> (e: Self)
        ensures
            e.order == 0 && e.attributes == 0 && e.reserved1 == 0 && e.checksum == 0
                && e.reserved2 == 0,
            e.name1@ == seq![0u16, 0, 0, 0, 0],
            e.name2@ == seq![0u16, 0, 0, 0, 0, 0],
            e.name3@ == seq![0u16, 0],
    {
        let e = LongDirectoryEntry {
            order: 0,
            name1: [0, 0, 0, 0, 0],
            attributes: 0,
            reserved1: 0,
            checksum: 0,
            name2: [0, 0, 0, 0, 0, 0],
            reserved2: 0,
            name3: [0, 0],
        };
        assert(e.name1@ =~= seq![0u16, 0, 0, 0, 0]);
        assert(e.name2@ =~= seq![0u16, 0, 0, 0, 0, 0]);
        assert(e.name3@ =~= seq![0u16, 0]);
        e
    }
}

} // verus!
