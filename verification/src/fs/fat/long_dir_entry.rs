use vstd::prelude::*;
use crate::fs::text::chars_of;
use vstd::string::StringSliceAdditionalSpecFns;
use crate::fs::disk::{le16, read_u16};
use crate::fs::fat::dir_entry::{push_u16, u16_bytes};
use crate::fs::fat::fat_driver::ENTRY_LONG;

verus! {

/// An entry of a long file name: 13 UTF-16 units of the name, in three
/// parts, tied by a checksum to the short name entry that follows the
/// sequence.
#[derive(Debug, Clone, Copy)]
pub struct LongDirectoryEntry {
    /// The place of the entry in the sequence, from 1; bit 6 (0x40) marks
    /// the last one.
    pub order: u8,
    /// Units 0 to 4 of the entry's part of the name.
    pub name1: [u16; 5],
    /// The attributes: 0x0F for an entry of a long name.
    pub attributes: u8,
    /// Reserved: zero.
    pub reserved1: u8,
    /// The checksum of the short name.
    pub checksum: u8,
    /// Units 5 to 10 of the entry's part of the name.
    pub name2: [u16; 6],
    /// Reserved: zero.
    pub reserved2: u16,
    /// Units 11 and 12 of the entry's part of the name.
    pub name3: [u16; 2],
}

impl Default for LongDirectoryEntry {
    fn default() -> (e: Self)
        ensures
            e.order == 0 && e.attributes == 0 && e.reserved1 == 0 && e.checksum == 0
                && e.reserved2 == 0,
            e.name1@ == seq![0u16, 0, 0, 0, 0],
            e.name2@ == seq![0u16, 0, 0, 0, 0, 0],
            e.name3@ == seq![0u16, 0],
    {
        let e = LongDirectoryEntry {
            order: 0,
            name1: [0, 0, 0, 0, 0],
            attributes: 0,
            reserved1: 0,
            checksum: 0,
            name2: [0, 0, 0, 0, 0, 0],
            reserved2: 0,
            name3: [0, 0],
        };
        assert(e.name1@ =~= seq![0u16, 0, 0, 0, 0]);
        assert(e.name2@ =~= seq![0u16, 0, 0, 0, 0, 0]);
        assert(e.name3@ =~= seq![0u16, 0]);
        e
    }
}

/// The entry of a long name held in the 32 bytes of `b` at `off`.
pub open spec fn lfn_at(b: Seq<u8>, off: int) -> LongDirectoryEntry {
    LongDirectoryEntry {
        order: b[off],
        name1: [le16(b, off + 1) as u16, le16(b, off + 3) as u16, le16(b, off + 5) as u16, le16(b, off + 7) as u16, le16(b, off + 9) as u16],
        attributes: b[off + 11],
        reserved1: b[off + 12],
        checksum: b[off + 13],
        name2: [le16(b, off + 14) as u16, le16(b, off + 16) as u16, le16(b, off + 18) as u16, le16(b, off + 20) as u16, le16(b, off + 22) as u16, le16(b, off + 24) as u16],
        reserved2: le16(b, off + 26) as u16,
        name3: [le16(b, off + 28) as u16, le16(b, off + 30) as u16],
    }
}

impl LongDirectoryEntry {
    /// The entry held in the 32 bytes of `b` at `off`.
    pub fn from_bytes(b: &[u8], off: usize) -> (e: Self)
        requires
            off + 32 <= b@.len(),
        ensures
            e == lfn_at(b@, off as int),
    {
        let _len = b.len();
        LongDirectoryEntry {
            order: b[off],
            name1: [read_u16(b, off + 1), read_u16(b, off + 3), read_u16(b, off + 5), read_u16(b, off + 7), read_u16(b, off + 9)],
            attributes: b[off + 11],
            reserved1: b[off + 12],
            checksum: b[off + 13],
            name2: [read_u16(b, off + 14), read_u16(b, off + 16), read_u16(b, off + 18), read_u16(b, off + 20), read_u16(b, off + 22), read_u16(b, off + 24)],
            reserved2: read_u16(b, off + 26),
            name3: [read_u16(b, off + 28), read_u16(b, off + 30)],
        }
    }
}

/// The UTF-16 units of a character: one below 0x10000, a surrogate pair
/// above.
pub open spec fn utf16_of_char(c: char) -> Seq<u16> {
    let v = c as u32;
    if v < 0x10000 {
        seq![v as u16]
    } else {
        seq![(0xD800 + ((v - 0x10000) / 0x400)) as u16, (0xDC00 + ((v - 0x10000) % 0x400)) as u16]
    }
}

/// The UTF-16 encoding of the first `n` characters of `s`.
pub open spec fn utf16_upto(s: Seq<char>, n: nat) -> Seq<u16>
    decreases n,
{
    if n == 0 {
        Seq::empty()
    } else {
        utf16_upto(s, (n - 1) as nat) + utf16_of_char(s[n - 1])
    }
}

/// The UTF-16 encoding of `s`.
pub open spec fn utf16_of(s: Seq<char>) -> Seq<u16> {
    utf16_upto(s, s.len())
}

/// The UTF-16 encoding of `name`, as `str::encode_utf16` gives it.
fn encode_utf16(name: &str) -> (units: Vec<u16>)
    ensures
        units@ == utf16_of(name@),
{
    let chars = chars_of(name);
    let mut units: Vec<u16> = Vec::new();
    let mut i: usize = 0;
    while i < chars.len()
        invariant
            i <= chars@.len(),
            chars@ == name@,
            units@ == utf16_upto(name@, i as nat),
        decreases chars@.len() - i,
    {
        let c = chars[i];
        let v = c as u32;
        if v < 0x10000 {
            units.push(v as u16);
        } else {
            units.push((0xD800 + (v - 0x10000) / 0x400) as u16);
            units.push((0xDC00 + (v - 0x10000) % 0x400) as u16);
        }
        assert(units@ =~= utf16_upto(name@, i as nat) + utf16_of_char(name@[i as int]));
        i = i + 1;
    }
    units
}

/// Unit `p` of `units`, or 0 past their end.
pub open spec fn unit_or_zero(units: Seq<u16>, p: int) -> u16 {
    if 0 <= p < units.len() {
        units[p]
    } else {
        0
    }
}

/// Whether `e` is entry `j` (from 0) of the `k` long name entries of
/// `units` tied to `checksum`: it holds units `13 j` to `13 j + 12`, zeros
/// past the end, and the last one is marked.
pub open spec fn is_lfn_entry(e: LongDirectoryEntry, units: Seq<u16>, j: int, k: int, checksum: u8) -> bool {
    &&& e.order == (if j == k - 1 { ((j + 1) as u8) | 0x40u8 } else { (j + 1) as u8 })
    &&& e.attributes == ENTRY_LONG
    &&& e.reserved1 == 0
    &&& e.checksum == checksum
    &&& e.reserved2 == 0
    &&& forall|i: int| 0 <= i < 5 ==> #[trigger] e.name1@[i] == unit_or_zero(units, 13 * j + i)
    &&& forall|i: int| 0 <= i < 6 ==> #[trigger] e.name2@[i] == unit_or_zero(units, 13 * j + 5 + i)
    &&& forall|i: int| 0 <= i < 2 ==> #[trigger] e.name3@[i] == unit_or_zero(units, 13 * j + 11 + i)
}

/// The long name entries of `name` tied to the short name's `checksum`:
/// one more than the number of whole 13-byte parts of the name's UTF-8
/// length, each holding 13 UTF-16 units of the name, zeros past its end; the
/// last one is marked, and they come in reverse order, as on disk.
pub fn create_lfn_entries(name: &str, checksum: u8) -> (entries: Vec<LongDirectoryEntry>)
    ensures
        entries@.len() == name.len() / 13 + 1,
        forall|j: int|
            0 <= j < entries@.len() ==> is_lfn_entry(
                #[trigger] entries@[entries@.len() - 1 - j],
                utf16_of(name@),
                j,
                entries@.len() as int,
                checksum,
            ),
{
    let name_len = name.len();
    let long_entries = (name_len / 13) + 1;
    let utf16_name: Vec<u16> = encode_utf16(name);
    let ghost units = utf16_name@;
    let mut forward: Vec<LongDirectoryEntry> = Vec::new();
    let mut counter: usize = 0;
    let mut j: usize = 0;
    while j < long_entries
        invariant
            long_entries == name.len() / 13 + 1,
            units == utf16_name@,
            units == utf16_of(name@),
            j <= long_entries,
            forward@.len() == j,
            counter == if 13 * j < units.len() { 13 * j } else { units.len() as int },
            forall|jj: int|
                0 <= jj < j ==> is_lfn_entry(
                    #[trigger] forward@[jj],
                    units,
                    jj,
                    long_entries as int,
                    checksum,
                ),
        decreases long_entries - j,
    {
        let ghost start = 13 * j;
        let mut name1: [u16; 5] = [0, 0, 0, 0, 0];
        let mut name2: [u16; 6] = [0, 0, 0, 0, 0, 0];
        let mut name3: [u16; 2] = [0, 0];
        let mut i: usize = 0;
        while i < 5
            invariant
                i <= 5,
                units == utf16_name@,
                counter == if start + i < units.len() { start + i } else { units.len() as int },
                name1@.len() == 5,
                forall|ii: int| 0 <= ii < i ==> #[trigger] name1@[ii] == unit_or_zero(units, start + ii),
            decreases 5 - i,
        {
            if counter >= utf16_name.len() {
                name1[i] = 0;
            } else {
                name1[i] = utf16_name[counter];
                counter += 1;
            }
            i = i + 1;
        }
        let mut i: usize = 0;
        while i < 6
            invariant
                i <= 6,
                units == utf16_name@,
                counter == if start + 5 + i < units.len() { start + 5 + i } else { units.len() as int },
                name2@.len() == 6,
                forall|ii: int| 0 <= ii < i ==> #[trigger] name2@[ii] == unit_or_zero(units, start + 5 + ii),
            decreases 6 - i,
        {
            if counter >= utf16_name.len() {
                name2[i] = 0;
            } else {
                name2[i] = utf16_name[counter];
                counter += 1;
            }
            i = i + 1;
        }
        let mut i: usize = 0;
        while i < 2
            invariant
                i <= 2,
                units == utf16_name@,
                counter == if start + 11 + i < units.len() { start + 11 + i } else { units.len() as int },
                name3@.len() == 2,
                forall|ii: int| 0 <= ii < i ==> #[trigger] name3@[ii] == unit_or_zero(units, start + 11 + ii),
            decreases 2 - i,
        {
            if counter >= utf16_name.len() {
                name3[i] = 0;
            } else {
                name3[i] = utf16_name[counter];
                counter += 1;
            }
            i = i + 1;
        }
        let mut lfn_entry = LongDirectoryEntry {
            order: (j + 1) as u8,
            name1,
            attributes: ENTRY_LONG,
            reserved1: 0,
            checksum,
            name2,
            reserved2: 0,
            name3,
        };
        if j == long_entries - 1 {
            lfn_entry.order = lfn_entry.order | 0x40;
        }
        forward.push(lfn_entry);
        j = j + 1;
    }
    let mut entries: Vec<LongDirectoryEntry> = Vec::new();
    let mut k: usize = forward.len();
    while k > 0
        invariant
            k <= forward@.len(),
            entries@.len() == forward@.len() - k,
            forall|i: int| 0 <= i < entries@.len() ==> #[trigger] entries@[i] == forward@[forward@.len() - 1 - i],
        decreases k,
    {
        k = k - 1;
        entries.push(forward[k]);
    }
    entries
}

/// The little-endian bytes of the units `s`, one after the other.
pub open spec fn u16s_bytes(s: Seq<u16>) -> Seq<u8> {
    Seq::new(
        2 * s.len(),
        |i: int| if i % 2 == 0 { (s[i / 2] % 256) as u8 } else { (s[i / 2] / 256) as u8 },
    )
}

/// The 32 bytes of the long name entry `e` on disk, fields in little-endian
/// order.
pub open spec fn lfn_bytes(e: LongDirectoryEntry) -> Seq<u8> {
    seq![e.order] + u16s_bytes(e.name1@) + seq![e.attributes, e.reserved1, e.checksum] + u16s_bytes(
        e.name2@,
    ) + u16_bytes(e.reserved2) + u16s_bytes(e.name3@)
}

/// The order byte of entry `j` of `k` long name entries: its place from 1,
/// with bit 6 set on the last one.
pub open spec fn lfn_order(j: int, k: int) -> u8 {
    if j == k - 1 {
        ((j + 1) as u8) | 0x40u8
    } else {
        (j + 1) as u8
    }
}

/// The `n` units of `units` from place `from` on, zeros past their end.
pub open spec fn units_from(units: Seq<u16>, from: int, n: nat) -> Seq<u16> {
    Seq::new(n, |i: int| unit_or_zero(units, from + i))
}

/// The 32 bytes on disk of entry `j` of the `k` long name entries of
/// `units` tied to `checksum` (see [`is_lfn_entry`]).
pub open spec fn lfn_bytes_of(units: Seq<u16>, j: int, k: int, checksum: u8) -> Seq<u8> {
    seq![lfn_order(j, k)] + u16s_bytes(units_from(units, 13 * j, 5)) + seq![ENTRY_LONG, 0u8, checksum]
        + u16s_bytes(units_from(units, 13 * j + 5, 6)) + u16_bytes(0) + u16s_bytes(
        units_from(units, 13 * j + 11, 2),
    )
}

/// The bytes of an entry of a long name are those its place in the name
/// gives.
pub proof fn lemma_lfn_bytes(e: LongDirectoryEntry, units: Seq<u16>, j: int, k: int, checksum: u8)
    requires
        is_lfn_entry(e, units, j, k, checksum),
    ensures
        lfn_bytes(e) == lfn_bytes_of(units, j, k, checksum),
{
    assert(e.name1@ =~= units_from(units, 13 * j, 5));
    assert(e.name2@ =~= units_from(units, 13 * j + 5, 6));
    assert(e.name3@ =~= units_from(units, 13 * j + 11, 2));
}

impl LongDirectoryEntry {
    /// The 32 bytes of the entry, fields in little-endian order.
    pub fn to_bytes(&self) -> (b: Vec<u8>)
        ensures
            b@ == lfn_bytes(*self),
    {
        let mut b: Vec<u8> = Vec::new();
        b.push(self.order);
        push_u16(&mut b, self.name1[0]);
        push_u16(&mut b, self.name1[1]);
        push_u16(&mut b, self.name1[2]);
        push_u16(&mut b, self.name1[3]);
        push_u16(&mut b, self.name1[4]);
        assert(b@.subrange(1, 11) =~= u16s_bytes(self.name1@));
        b.push(self.attributes);
        b.push(self.reserved1);
        b.push(self.checksum);
        push_u16(&mut b, self.name2[0]);
        push_u16(&mut b, self.name2[1]);
        push_u16(&mut b, self.name2[2]);
        push_u16(&mut b, self.name2[3]);
        push_u16(&mut b, self.name2[4]);
        push_u16(&mut b, self.name2[5]);
        assert(b@.subrange(14, 26) =~= u16s_bytes(self.name2@));
        push_u16(&mut b, self.reserved2);
        push_u16(&mut b, self.name3[0]);
        push_u16(&mut b, self.name3[1]);
        assert(b@.subrange(28, 32) =~= u16s_bytes(self.name3@));
        assert(b@ =~= b@.subrange(0, 1) + b@.subrange(1, 11) + b@.subrange(11, 14) + b@.subrange(14, 26)
            + b@.subrange(26, 28) + b@.subrange(28, 32));
        assert(b@ =~= lfn_bytes(*self));
        b
    }
}

} // verus!
