use vstd::prelude::*;
use vstd::utf8::{decode_utf8, valid_utf8};
use crate::fs::fat::directory_entry::DirectoryEntry;
use crate::fs::fat::fat_driver::ATTR_DIRECTORY;
use crate::fs::fat::long_directory_entry::LongDirectoryEntry;
use crate::fs::text::{from_utf8, from_utf8_lossy, lowercase, to_lowercase, utf8_lossy};

verus! {

/// Whether a byte of a short name is part of the name: not a space or zero.
pub open spec fn is_name_byte(b: u8) -> bool {
    b != 0x20 && b != 0
}

/// The bytes of `s` from `lo` up to `hi` that are part of the name.
pub open spec fn name_bytes(s: Seq<u8>, lo: int, hi: int) -> Seq<u8>
    decreases hi - lo,
{
    if hi <= lo {
        Seq::empty()
    } else {
        let rest = name_bytes(s, lo, hi - 1);
        if is_name_byte(s[hi - 1]) {
            rest.push(s[hi - 1])
        } else {
            rest
        }
    }
}

/// The bytes of the text of a short name: the bytes of the name part, then,
/// when the extension has any, a dot and the bytes of the extension.
pub open spec fn short_name_text(name: Seq<u8>) -> Seq<u8> {
    let ext = name_bytes(name, 8, 11);
    if ext.len() == 0 {
        name_bytes(name, 0, 8)
    } else {
        name_bytes(name, 0, 8).push(0x2E) + ext
    }
}

/// The low bytes of the 13 units of a long name entry, in order.
pub open spec fn entry_unit_bytes(e: LongDirectoryEntry) -> Seq<u8> {
    Seq::new(5, |i: int| e.name1@[i] as u8) + Seq::new(6, |i: int| e.name2@[i] as u8) + Seq::new(
        2,
        |i: int| e.name3@[i] as u8,
    )
}

/// The bytes of the long name entries from `entries[i]` down to the first,
/// stopping after the one marked last.
pub open spec fn lfn_bytes_from(entries: Seq<LongDirectoryEntry>, i: int) -> Seq<u8>
    decreases i + 1,
{
    if i < 0 {
        Seq::empty()
    } else if entries[i].order & 0x40 == 0x40 {
        entry_unit_bytes(entries[i])
    } else {
        entry_unit_bytes(entries[i]) + lfn_bytes_from(entries, i - 1)
    }
}

/// `bytes` without the zero and 0xFF bytes.
pub open spec fn without_padding(bytes: Seq<u8>) -> Seq<u8>
    decreases bytes.len(),
{
    if bytes.len() == 0 {
        Seq::empty()
    } else {
        let rest = without_padding(bytes.drop_last());
        let b = bytes.last();
        if b != 0 && b != 0xFF {
            rest.push(b)
        } else {
            rest
        }
    }
}

/// The bytes of a long name: the entries' units, read from the last entry
/// back, without padding.
pub open spec fn long_name_bytes(entries: Seq<LongDirectoryEntry>) -> Seq<u8> {
    without_padding(lfn_bytes_from(entries, entries.len() - 1))
}

/// The name of an entry: from its long name entries when there are any,
/// else its short name, as text in lowercase.
pub open spec fn entry_name(entry: DirectoryEntry, lfn_entries: Seq<LongDirectoryEntry>) -> Seq<char> {
    if lfn_entries.len() == 0 {
        lowercase(utf8_lossy(short_name_text(entry.name@)))
    } else {
        decode_utf8(long_name_bytes(lfn_entries))
    }
}

/// Whether the name of the entry can be read: a long name must be valid
/// UTF-8.
pub open spec fn name_readable(lfn_entries: Seq<LongDirectoryEntry>) -> bool {
    lfn_entries.len() > 0 ==> valid_utf8(long_name_bytes(lfn_entries))
}

/// An entry of a directory with its name and where it lies on disk.
#[derive(Debug)]
pub struct VfsDirectoryEntry {
    /// The entry as on disk.
    pub entry: DirectoryEntry,
    /// The name of the file or directory.
    pub name: String,
    /// The sector that holds the entry.
    pub sector: u32,
    /// The place of the entry in its sector, in bytes.
    pub offset: u32,
}

impl VfsDirectoryEntry {
    /// The entry `entry`, found at `offset` in `sector`, with the name that
    /// its long name entries `lfn_entries` give, or its short name when
    /// there are none. `lfn_entries` is left as it is.
    pub fn from_entry(
        entry: DirectoryEntry,
        lfn_entries: &mut Vec<LongDirectoryEntry>,
        sector: u32,
        offset: u32,
    ) -> (e: Self)
        requires
            name_readable(old(lfn_entries)@),
        ensures
            e.entry == entry,
            e.name@ == entry_name(entry, old(lfn_entries)@),
            e.sector == sector,
            e.offset == offset,
            final(lfn_entries)@ == old(lfn_entries)@,
    {
        let name = Self::parse_name(&entry, lfn_entries);
        VfsDirectoryEntry { entry, name, sector, offset }
    }

    /// The first cluster of the file or directory: the high and low halves
    /// of its cluster number combined by a bitwise or, without shifting.
    pub fn get_cluster(&self) -> (c: u32)
        ensures
            c == (self.entry.high_cluster as u32) | (self.entry.low_cluster as u32),
    {
        self.entry.high_cluster as u32 | self.entry.low_cluster as u32
    }

    /// Whether the entry is a directory.
    pub fn is_dir(&self) -> (b: bool)
        ensures
            b == (self.entry.attributes & ATTR_DIRECTORY != 0),
    {
        self.entry.attributes & ATTR_DIRECTORY != 0
    }

    /// The name of `entry`: its long name when `lfn_entries` hold one, else
    /// its short name.
    fn parse_name(entry: &DirectoryEntry, lfn_entries: &Vec<LongDirectoryEntry>) -> (name: String)
        requires
            name_readable(lfn_entries@),
        ensures
            name@ == entry_name(*entry, lfn_entries@),
    {
        if lfn_entries.len() == 0 {
            Self::parse_short_filename(&entry.name)
        } else {
            Self::parse_long_filename(lfn_entries)
        }
    }

    /// The text of a short name in lowercase: the name part, then a dot and
    /// the extension when there is one.
    fn parse_short_filename(name: &[u8; 11]) -> (s: String)
        ensures
            s@ == lowercase(utf8_lossy(short_name_text(name@))),
    {
        let mut filename: Vec<u8> = Vec::new();
        let mut i: usize = 0;
        while i < 8
            invariant
                i <= 8,
                filename@ == name_bytes(name@, 0, i as int),
            decreases 8 - i,
        {
            let byte = name[i];
            if byte != 0x20 && byte != 0x00 {
                filename.push(byte);
            }
            i = i + 1;
        }
        let ghost base = filename@;
        let mut has_extension = false;
        let mut i: usize = 8;
        while i < 11
            invariant
                8 <= i <= 11,
                base == name_bytes(name@, 0, 8),
                has_extension == (name_bytes(name@, 8, i as int).len() > 0),
                filename@ == if has_extension {
                    base.push(0x2E) + name_bytes(name@, 8, i as int)
                } else {
                    base
                },
            decreases 11 - i,
        {
            let byte = name[i];
            if byte != 0x20 && byte != 0x00 {
                if !has_extension {
                    filename.push(0x2E);
                    has_extension = true;
                }
                filename.push(byte);
            }
            proof {
                assert(base.push(0x2E) + name_bytes(name@, 8, i + 1) =~= if is_name_byte(byte) {
                    (base.push(0x2E) + name_bytes(name@, 8, i as int)).push(byte)
                } else {
                    base.push(0x2E) + name_bytes(name@, 8, i as int)
                });
            }
            i = i + 1;
        }
        let text = from_utf8_lossy(filename.as_slice());
        to_lowercase(text.as_str())
    }

    /// The text of a long name, from its entries read from the last back to
    /// the one marked last, without zero and 0xFF bytes.
    fn parse_long_filename(long_entries: &Vec<LongDirectoryEntry>) -> (s: String)
        requires
            long_entries@.len() > 0,
            valid_utf8(long_name_bytes(long_entries@)),
        ensures
            s@ == decode_utf8(long_name_bytes(long_entries@)),
    {
        let mut long_name: Vec<u8> = Vec::new();
        let ghost entries = long_entries@;
        let mut k: usize = long_entries.len();
        let mut done = false;
        while k > 0 && !done
            invariant
                entries == long_entries@,
                k <= entries.len(),
                long_name@ + (if done {
                    Seq::<u8>::empty()
                } else {
                    lfn_bytes_from(entries, k - 1)
                }) == lfn_bytes_from(entries, entries.len() - 1),
            decreases k,
        {
            let l_entry = long_entries[k - 1];
            let ghost before = long_name@;
            let mut i: usize = 0;
            while i < 5
                invariant
                    i <= 5,
                    long_name@ == before + Seq::new(i as nat, |j: int| l_entry.name1@[j] as u8),
                decreases 5 - i,
            {
                long_name.push(l_entry.name1[i] as u8);
                proof {
                    assert(before + Seq::new((i + 1) as nat, |j: int| l_entry.name1@[j] as u8) =~= (
                    before + Seq::new(i as nat, |j: int| l_entry.name1@[j] as u8)).push(
                        l_entry.name1@[i as int] as u8,
                    ));
                }
                i = i + 1;
            }
            let ghost b1 = long_name@;
            let mut i: usize = 0;
            while i < 6
                invariant
                    i <= 6,
                    long_name@ == b1 + Seq::new(i as nat, |j: int| l_entry.name2@[j] as u8),
                decreases 6 - i,
            {
                long_name.push(l_entry.name2[i] as u8);
                proof {
                    assert(b1 + Seq::new((i + 1) as nat, |j: int| l_entry.name2@[j] as u8) =~= (b1
                        + Seq::new(i as nat, |j: int| l_entry.name2@[j] as u8)).push(
                        l_entry.name2@[i as int] as u8,
                    ));
                }
                i = i + 1;
            }
            let ghost b2 = long_name@;
            let mut i: usize = 0;
            while i < 2
                invariant
                    i <= 2,
                    long_name@ == b2 + Seq::new(i as nat, |j: int| l_entry.name3@[j] as u8),
                decreases 2 - i,
            {
                long_name.push(l_entry.name3[i] as u8);
                proof {
                    assert(b2 + Seq::new((i + 1) as nat, |j: int| l_entry.name3@[j] as u8) =~= (b2
                        + Seq::new(i as nat, |j: int| l_entry.name3@[j] as u8)).push(
                        l_entry.name3@[i as int] as u8,
                    ));
                }
                i = i + 1;
            }
            proof {
                assert(long_name@ =~= before + entry_unit_bytes(l_entry));
            }
            if (l_entry.order & 0x40) == 0x40 {
                done = true;
            }
            k = k - 1;
        }
        proof {
            if !done {
                assert(lfn_bytes_from(entries, -1) =~= Seq::<u8>::empty());
            }
            assert(long_name@ =~= lfn_bytes_from(entries, entries.len() - 1));
        }
        let ghost raw = long_name@;
        let mut kept: Vec<u8> = Vec::new();
        let mut i: usize = 0;
        while i < long_name.len()
            invariant
                raw == long_name@,
                i <= raw.len(),
                kept@ == without_padding(raw.subrange(0, i as int)),
            decreases raw.len() - i,
        {
            let b = long_name[i];
            proof {
                assert(raw.subrange(0, i + 1).drop_last() =~= raw.subrange(0, i as int));
            }
            if b != 0x00 && b != 0xFF {
                kept.push(b);
            }
            i = i + 1;
        }
        proof {
            assert(raw.subrange(0, raw.len() as int) =~= raw);
        }
        match from_utf8(kept) {
            Some(s) => s,
            None => {
                proof {
                    assert(false);
                }
                String::new()
            },
        }
    }
}

} // verus!
