use vstd::prelude::*;
use crate::fs::disk::{le16, le32, le32_bytes, lemma_le32_roundtrip, read_u16, read_u32, Disk, SECTOR_SIZE};
use crate::fs::fat::boot_sector::Fat32BootSector;
use crate::fs::fat::dir_entry::{entry_at, DirectoryEntry};
use crate::fs::fat::long_dir_entry::{lfn_at, LongDirectoryEntry};
use crate::fs::vfs_dir_entry::{entry_name, name_readable, VfsDirectoryEntry};
use crate::fs::text::{chars_of, eq_ignore_ascii_case, eq_ignore_ascii_case_spec, path_parts, split_path};

verus! {

/// A free cluster.
pub const CLUSTER_FREE: u32 = 0x00000000;
/// The first of the reserved cluster values.
pub const CLUSTER_RESERVED: u32 = 0x0FFFFFF0;
/// A bad cluster, unusable.
pub const CLUSTER_BAD: u32 = 0x0FFFFFF7;
/// The last cluster of a chain: values from here up end a chain.
pub const CLUSTER_LAST: u32 = 0x0FFFFFF8;

/// The first byte of the name of the entry after the last one.
pub const ENTRY_END: u8 = 0x00;
/// The first byte of the name of a free entry.
pub const ENTRY_FREE: u8 = 0xE5;
/// The first byte of the name of a deleted entry.
pub const ENTRY_DELETED: u8 = 0x05;
/// The attributes of an entry of a long name.
pub const ENTRY_LONG: u8 = 0x0F;

/// The attribute bit of a directory.
pub const ATTR_DIRECTORY: u8 = 0x10;

/// The layout of a mounted FAT volume, worked out from its boot sector.
#[derive(Debug, Clone, Copy, PartialEq, Eq, Structural)]
pub struct FileSystemInfo {
    /// The first sector of the file system on the device.
    pub start_sector: u64,
    /// The number of sectors of the file system.
    pub sectors_count: u64,
    /// Bytes per sector.
    pub bytes_per_sector: u16,
    /// Sectors of the root directory (none for FAT32).
    pub root_sectors: u32,
    /// Sectors per cluster.
    pub sectors_per_cluster: u8,
    /// Bytes per cluster.
    pub cluster_size: u32,
    /// The first sector of the data area, where cluster 2 starts.
    pub first_data_sector: u32,
    /// The first sector of the FAT.
    pub first_fat_sector: u32,
    /// The first cluster of the root directory.
    pub root_dir_cluster: u32,
    /// The number of clusters of the data area.
    pub total_clusters: u32,
    /// Entries of the root directory (none for FAT32).
    pub root_dir_entries: u16,
}

/// Whether the boot sector held in `b` describes a layout that can be worked
/// out: sectors of at least one byte, clusters of at least one sector, a data
/// area that starts within the volume and whose start fits in 32 bits.
pub open spec fn mountable(b: Seq<u8>) -> bool {
    &&& le16(b, 11) > 0
    &&& b[13] > 0
    &&& le16(b, 14) + b[16] * le32(b, 36) <= u32::MAX
    &&& le16(b, 14) + b[16] * le32(b, 36) <= le32(b, 32)
}

/// The layout that the boot sector held in `b` describes (its fields at
/// their places: bytes per sector at 11, sectors per cluster at 13,
/// reserved sectors at 14, number of FATs at 16, root entries at 17, sectors
/// of the volume at 32, sectors per FAT at 36, root cluster at 44).
pub open spec fn layout_of(b: Seq<u8>) -> FileSystemInfo {
    let bps = le16(b, 11);
    let spc = b[13] as int;
    let first_data = le16(b, 14) + b[16] * le32(b, 36);
    FileSystemInfo {
        start_sector: 0,
        sectors_count: le32(b, 32) as u64,
        bytes_per_sector: bps as u16,
        root_sectors: ((le16(b, 17) * 32 + bps - 1) / bps) as u32,
        sectors_per_cluster: spc as u8,
        cluster_size: (bps * spc) as u32,
        first_data_sector: first_data as u32,
        first_fat_sector: le16(b, 14) as u32,
        root_dir_cluster: le32(b, 44) as u32,
        total_clusters: ((le32(b, 32) - first_data) / spc) as u32,
        root_dir_entries: le16(b, 17) as u16,
    }
}

/// The byte of the disk where the FAT entry of `cluster` starts.
pub open spec fn fat_pos(fs: FileSystemInfo, cluster: u32) -> int {
    (fs.first_fat_sector + (cluster * 4) / (fs.bytes_per_sector as int)) * SECTOR_SIZE + (cluster * 4)
        % (fs.bytes_per_sector as int)
}

/// The FAT entry of `cluster` on the disk `d`: the low 28 bits of its
/// 32-bit value.
pub open spec fn fat_entry(d: Seq<u8>, fs: FileSystemInfo, cluster: u32) -> u32 {
    (le32(d, fat_pos(fs, cluster)) as u32) & 0x0FFFFFFF
}

/// The disk `d` with the 4 bytes at `pos` replaced by those of `v`.
pub open spec fn with_u32(d: Seq<u8>, pos: int, v: u32) -> Seq<u8> {
    d.subrange(0, pos) + le32_bytes(v) + d.subrange(pos + 4, d.len() as int)
}

/// The disk `d` with the FAT entry of `cluster` set to `next`, keeping the
/// entry's top 4 bits.
pub open spec fn with_fat_entry(d: Seq<u8>, fs: FileSystemInfo, cluster: u32, next: u32) -> Seq<u8> {
    let pos = fat_pos(fs, cluster);
    with_u32(d, pos, ((le32(d, pos) as u32) & 0xF0000000) | (next & 0x0FFFFFFF))
}

/// Whether `fs` is the layout of a volume on a disk of `len` bytes whose
/// sectors are 512 bytes: the FAT holds an entry for each cluster within the
/// disk, and the numbers of the data area fit in 32 bits.
pub open spec fn layout_fits(fs: FileSystemInfo, len: int) -> bool {
    &&& fs.bytes_per_sector == SECTOR_SIZE
    &&& fs.sectors_per_cluster > 0
    &&& fs.total_clusters * 4 <= u32::MAX
    &&& (fs.first_fat_sector + (fs.total_clusters * 4) / 512 + 1) * SECTOR_SIZE <= len
    &&& fs.first_fat_sector + (fs.total_clusters * 4) / 512 + 1 <= u32::MAX
}

/// What following the chain from `cluster` one step does to the disk `d`:
/// the cluster after it, the disk unchanged; or, where the chain ends at
/// `cluster`, the first free cluster, marked as the end of the chain and
/// linked after `cluster`; `None` when no cluster is free.
pub open spec fn next_link(d: Seq<u8>, fs: FileSystemInfo, cluster: u32) -> Option<(Seq<u8>, u32)> {
    let next = fat_entry(d, fs, cluster);
    if next < CLUSTER_LAST {
        Some((d, next))
    } else {
        match first_free_cluster(d, fs, fs.root_dir_cluster as int, fs.total_clusters as int) {
            Some(c) => Some((with_fat_entry(with_fat_entry(d, fs, c, CLUSTER_LAST), fs, cluster, c), c)),
            None => None,
        }
    }
}

/// Whether the boot sector held in `b` describes a volume that can be
/// mounted (see [`mountable`]).
pub fn is_mountable(b: &[u8]) -> (ok: bool)
    requires
        b@.len() >= 48,
    ensures
        ok == mountable(b@),
{
    let bps = read_u16(b, 11);
    let spc = b[13];
    let reserved = read_u16(b, 14);
    let fats = b[16];
    let total = read_u32(b, 32);
    let spf = read_u32(b, 36);
    assert((fats as u64) * (spf as u64) <= 255 * 0xFFFF_FFFF) by (nonlinear_arith)
        requires
            fats <= 255,
            spf <= 0xFFFF_FFFF,
    ;
    let first_data: u64 = reserved as u64 + (fats as u64) * (spf as u64);
    bps > 0 && spc > 0 && first_data <= 0xFFFF_FFFF && first_data <= total as u64
}

/// A driver of a FAT32 volume on a disk.
pub struct FatDriver {
    /// The layout of the volume.
    pub fs: FileSystemInfo,
    /// The disk.
    pub device: Disk,
}

/// The first cluster from `from` below `to` whose FAT entry is free.
pub open spec fn first_free_cluster(d: Seq<u8>, fs: FileSystemInfo, from: int, to: int) -> Option<u32>
    decreases to - from,
{
    if from >= to {
        None
    } else if fat_entry(d, fs, from as u32) == CLUSTER_FREE {
        Some(from as u32)
    } else {
        first_free_cluster(d, fs, from + 1, to)
    }
}

pub(crate) proof fn lemma_fat_pos(fs: FileSystemInfo, cluster: u32)
    requires
        fs.bytes_per_sector == SECTOR_SIZE,
        cluster * 4 <= u32::MAX,
    ensures
        fat_pos(fs, cluster) == fs.first_fat_sector * 512 + cluster * 4,
        (cluster * 4) % 512 + 4 <= 512,
{
    assert((cluster * 4) / 512 * 512 + (cluster * 4) % 512 == cluster * 4) by (nonlinear_arith);
    assert((cluster * 4) % 512 + 4 <= 512) by (nonlinear_arith);
}

pub(crate) proof fn lemma_first_free_range(d: Seq<u8>, fs: FileSystemInfo, from: int, to: int)
    requires
        0 <= from,
        to <= u32::MAX,
    ensures
        first_free_cluster(d, fs, from, to) matches Some(c) ==> from <= c < to
            && fat_entry(d, fs, c) == CLUSTER_FREE,
    decreases to - from,
{
    if from < to {
        lemma_first_free_range(d, fs, from + 1, to);
    }
}

/// Writing the FAT entry of a cluster keeps the length of the disk.
pub proof fn lemma_with_u32_len(d: Seq<u8>, fs: FileSystemInfo, c: u32, next: u32)
    requires
        layout_fits(fs, d.len() as int),
        c < fs.total_clusters,
    ensures
        with_fat_entry(d, fs, c, next).len() == d.len(),
{
    lemma_fat_pos(fs, c);
    assert((c * 4) / 512 <= (fs.total_clusters * 4) / 512) by (nonlinear_arith)
        requires
            c < fs.total_clusters,
    ;
}

/// Following a chain one step keeps the length of the disk, and a cluster
/// allocated on the way has a FAT entry.
pub proof fn lemma_next_link_len(d: Seq<u8>, fs: FileSystemInfo, cluster: u32)
    requires
        layout_fits(fs, d.len() as int),
        cluster < fs.total_clusters,
    ensures
        next_link(d, fs, cluster) matches Some(p) ==> p.0.len() == d.len() && (fat_entry(d, fs, cluster)
            >= CLUSTER_LAST ==> p.1 < fs.total_clusters),
{
    if fat_entry(d, fs, cluster) >= CLUSTER_LAST {
        lemma_first_free_range(d, fs, fs.root_dir_cluster as int, fs.total_clusters as int);
        if let Some(c) = first_free_cluster(d, fs, fs.root_dir_cluster as int, fs.total_clusters as int) {
            lemma_with_u32_len(d, fs, c, CLUSTER_LAST);
            lemma_with_u32_len(with_fat_entry(d, fs, c, CLUSTER_LAST), fs, cluster, c);
        }
    }
}

/// Reading the FAT entry of a cluster gives back what was written in it, and
/// writing the entry of one cluster leaves the entries of the others as they
/// were.
pub proof fn lemma_fat_entry_write(d: Seq<u8>, fs: FileSystemInfo, c: u32, next: u32, other: u32)
    requires
        layout_fits(fs, d.len() as int),
        c < fs.total_clusters,
        other < fs.total_clusters,
    ensures
        fat_entry(with_fat_entry(d, fs, c, next), fs, c) == next & 0x0FFFFFFF,
        other != c ==> fat_entry(with_fat_entry(d, fs, c, next), fs, other) == fat_entry(d, fs, other),
{
    lemma_fat_pos(fs, c);
    lemma_fat_pos(fs, other);
    assert((c * 4) / 512 <= (fs.total_clusters * 4) / 512) by (nonlinear_arith)
        requires
            c < fs.total_clusters,
    ;
    assert((other * 4) / 512 <= (fs.total_clusters * 4) / 512) by (nonlinear_arith)
        requires
            other < fs.total_clusters,
    ;
    let pos = fat_pos(fs, c);
    let old_v = le32(d, pos) as u32;
    let v = (old_v & 0xF0000000) | (next & 0x0FFFFFFF);
    let d2 = with_fat_entry(d, fs, c, next);
    assert(d2.subrange(pos, pos + 4) =~= le32_bytes(v));
    lemma_le32_roundtrip(v, d2, pos);
    assert(((old_v & 0xF0000000) | (next & 0x0FFFFFFF)) & 0x0FFFFFFF == next & 0x0FFFFFFF)
        by (bit_vector);
    if other != c {
        let p2 = fat_pos(fs, other);
        assert(p2 + 4 <= pos || pos + 4 <= p2);
        assert(d2[p2] == d[p2]);
        assert(d2[p2 + 1] == d[p2 + 1]);
        assert(d2[p2 + 2] == d[p2 + 2]);
        assert(d2[p2 + 3] == d[p2 + 3]);
    }
}

/// What reading the first `n` entries of a directory sector found: the
/// entries with their long name entries and their place in the sector, the
/// long name entries read since the last entry, whether the end was met, and
/// whether every name found could be read.
pub struct SectorScan {
    /// The entries found, with their long name entries and place.
    pub found: Seq<(DirectoryEntry, Seq<LongDirectoryEntry>, u32)>,
    /// The long name entries read since the last entry.
    pub lfn: Seq<LongDirectoryEntry>,
    /// Whether an entry marked as the end was met.
    pub ended: bool,
    /// Whether every name found can be read.
    pub readable: bool,
}

/// Reads the first `n` entries of 32 bytes of the directory sector `buf`:
/// an entry whose name starts with 0 ends the directory, free and deleted
/// entries are skipped, entries of long names are gathered, and every other
/// entry is found with the long name entries gathered before it.
pub open spec fn scan_sector(buf: Seq<u8>, n: nat) -> SectorScan
    decreases n,
{
    if n == 0 {
        SectorScan { found: Seq::empty(), lfn: Seq::empty(), ended: false, readable: true }
    } else {
        let st = scan_sector(buf, (n - 1) as nat);
        let off = (n - 1) * 32;
        if st.ended {
            st
        } else if buf[off] == ENTRY_END {
            SectorScan { ended: true, ..st }
        } else if buf[off] == ENTRY_FREE || buf[off] == ENTRY_DELETED {
            st
        } else if buf[off + 11] == ENTRY_LONG {
            SectorScan { lfn: st.lfn.push(lfn_at(buf, off)), ..st }
        } else {
            SectorScan {
                found: st.found.push((entry_at(buf, off), st.lfn, off as u32)),
                lfn: Seq::empty(),
                ended: false,
                readable: st.readable && name_readable(st.lfn),
            }
        }
    }
}

proof fn lemma_scan_readable(buf: Seq<u8>, m: nat, n: nat)
    requires
        m <= n,
        scan_sector(buf, n).readable,
    ensures
        scan_sector(buf, m).readable,
    decreases n - m,
{
    if m < n {
        lemma_scan_readable(buf, m, (n - 1) as nat);
    }
}

proof fn lemma_scan_ended(buf: Seq<u8>, m: nat, n: nat)
    requires
        m <= n,
        scan_sector(buf, m).ended,
    ensures
        scan_sector(buf, n) == scan_sector(buf, m),
    decreases n - m,
{
    if m < n {
        lemma_scan_ended(buf, m, (n - 1) as nat);
    }
}

/// Reads the directory sector `buffer` as [`scan_sector`] does: whether
/// every name found can be read, and whether any entry is found.
pub fn scan_sector_state(buffer: &[u8]) -> (r: (bool, bool))
    requires
        buffer@.len() == SECTOR_SIZE,
    ensures
        r.0 == scan_sector(buffer@, 16).readable,
        r.1 == (scan_sector(buffer@, 16).found.len() > 0),
{
    let mut lfn: Vec<LongDirectoryEntry> = Vec::new();
    let mut readable = true;
    let mut found_any = false;
    let mut i: usize = 0;
    while i < 16
        invariant
            buffer@.len() == SECTOR_SIZE,
            i <= 16,
            !scan_sector(buffer@, i as nat).ended,
            lfn@ == scan_sector(buffer@, i as nat).lfn,
            readable == scan_sector(buffer@, i as nat).readable,
            found_any == (scan_sector(buffer@, i as nat).found.len() > 0),
        decreases 16 - i,
    {
        let off = i * 32;
        if buffer[off] == ENTRY_END {
            proof {
                lemma_scan_ended(buffer@, (i + 1) as nat, 16);
            }
            return (readable, found_any);
        }
        if buffer[off] == ENTRY_FREE || buffer[off] == ENTRY_DELETED {
        } else if buffer[off + 11] == ENTRY_LONG {
            lfn.push(LongDirectoryEntry::from_bytes(buffer, off));
        } else {
            readable = readable && VfsDirectoryEntry::name_is_readable(&lfn);
            found_any = true;
            lfn = Vec::new();
            proof {
                assert(lfn@ =~= Seq::<LongDirectoryEntry>::empty());
            }
        }
        i = i + 1;
    }
    (readable, found_any)
}

/// The bytes of sector `lba` of the disk `d`.
pub open spec fn sector_bytes(d: Seq<u8>, lba: int) -> Seq<u8> {
    d.subrange(lba * SECTOR_SIZE, lba * SECTOR_SIZE + SECTOR_SIZE)
}

/// The entries found in the first `n` sectors of the cluster whose first
/// sector is `first`, stopping at the first sector where none is found,
/// with whether that happened.
pub open spec fn cluster_found(d: Seq<u8>, first: int, n: nat) -> (
    Seq<(DirectoryEntry, Seq<LongDirectoryEntry>, u32)>,
    bool,
)
    decreases n,
{
    if n == 0 {
        (Seq::empty(), false)
    } else {
        let (acc, stopped) = cluster_found(d, first, (n - 1) as nat);
        let f = scan_sector(sector_bytes(d, first + n - 1), 16).found;
        if stopped {
            (acc, true)
        } else if f.len() == 0 {
            (acc, true)
        } else {
            (acc + f, false)
        }
    }
}

/// Whether the names in the first `n` sectors read of the cluster whose
/// first sector is `first` can all be read.
pub open spec fn cluster_readable(d: Seq<u8>, first: int, n: nat) -> bool
    decreases n,
{
    if n == 0 {
        true
    } else {
        cluster_readable(d, first, (n - 1) as nat) && (cluster_found(d, first, (n - 1) as nat).1
            || scan_sector(sector_bytes(d, first + n - 1), 16).readable)
    }
}

/// The first sector of `cluster`.
pub open spec fn cluster_sector(fs: FileSystemInfo, cluster: u32) -> int {
    fs.first_data_sector + (cluster - 2) * fs.sectors_per_cluster
}

/// Whether the clusters of a chain can be read: each has a FAT entry and
/// its sectors lie on the disk.
pub open spec fn cluster_ok(d: Seq<u8>, fs: FileSystemInfo, cluster: u32) -> bool {
    &&& 2 <= cluster < fs.total_clusters
    &&& cluster_sector(fs, cluster) + fs.sectors_per_cluster <= u32::MAX
    &&& (cluster_sector(fs, cluster) + fs.sectors_per_cluster) * SECTOR_SIZE <= d.len()
    &&& cluster_readable(d, cluster_sector(fs, cluster), fs.sectors_per_cluster as nat)
}

/// The clusters of the chain from `cluster`, followed through the FAT until
/// a cluster that is free or ends the chain, when that takes at most `fuel`
/// steps and each cluster met can be read.
pub open spec fn chain(d: Seq<u8>, fs: FileSystemInfo, cluster: u32, fuel: nat) -> Option<Seq<u32>>
    decreases fuel,
{
    if !(cluster != CLUSTER_FREE && cluster < CLUSTER_LAST) {
        Some(Seq::empty())
    } else if fuel == 0 || !cluster_ok(d, fs, cluster) {
        None
    } else {
        match chain(d, fs, fat_entry(d, fs, cluster), (fuel - 1) as nat) {
            Some(rest) => Some(seq![cluster] + rest),
            None => None,
        }
    }
}

/// The entries of the directory whose clusters are `clusters`, each with
/// the first sector of its cluster.
pub open spec fn dir_found(d: Seq<u8>, fs: FileSystemInfo, clusters: Seq<u32>) -> Seq<
    (DirectoryEntry, Seq<LongDirectoryEntry>, u32, u32),
>
    decreases clusters.len(),
{
    if clusters.len() == 0 {
        Seq::empty()
    } else {
        let c = clusters.last();
        let first = cluster_sector(fs, c);
        dir_found(d, fs, clusters.drop_last()) + cluster_found(
            d,
            first,
            fs.sectors_per_cluster as nat,
        ).0.map_values(|t: (DirectoryEntry, Seq<LongDirectoryEntry>, u32)| (t.0, t.1, t.2, first as u32))
    }
}

proof fn lemma_cluster_readable(d: Seq<u8>, first: int, m: nat, n: nat)
    requires
        m <= n,
        cluster_readable(d, first, n),
    ensures
        cluster_readable(d, first, m),
    decreases n - m,
{
    if m < n {
        lemma_cluster_readable(d, first, m, (n - 1) as nat);
    }
}

proof fn lemma_cluster_stopped(d: Seq<u8>, first: int, m: nat, n: nat)
    requires
        m <= n,
        cluster_found(d, first, m).1,
    ensures
        cluster_found(d, first, n) == cluster_found(d, first, m),
    decreases n - m,
{
    if m < n {
        lemma_cluster_stopped(d, first, m, (n - 1) as nat);
    }
}

/// An entry of a directory as found on disk: the entry, its long name
/// entries, its place in its sector, and the sector.
pub type FoundEntry = (DirectoryEntry, Seq<LongDirectoryEntry>, u32, u32);

/// Whether the chain of clusters from `cluster` ends within as many steps
/// as there are clusters, through clusters whose sectors lie on the disk and
/// whose names can be read.
pub open spec fn chain_ok(d: Seq<u8>, fs: FileSystemInfo, cluster: u32) -> bool {
    chain(d, fs, cluster, fs.total_clusters as nat) is Some
}

/// The entries of the directory whose chain starts at `cluster`.
pub open spec fn dir_entries_of(d: Seq<u8>, fs: FileSystemInfo, cluster: u32) -> Seq<FoundEntry> {
    dir_found(d, fs, chain(d, fs, cluster, fs.total_clusters as nat)->0)
}

/// The place of the first of `f` from `k` on whose name matches `name` but
/// for the case of ASCII letters.
pub open spec fn find_named(f: Seq<FoundEntry>, name: Seq<char>, k: int) -> Option<int>
    decreases f.len() - k,
{
    if k < 0 || k >= f.len() {
        None
    } else if eq_ignore_ascii_case_spec(entry_name(f[k].0, f[k].1), name) {
        Some(k)
    } else {
        find_named(f, name, k + 1)
    }
}

/// The first cluster of an entry.
pub open spec fn entry_cluster(e: DirectoryEntry) -> u32 {
    ((e.high_cluster as u32) << 16u32) | (e.low_cluster as u32)
}

/// Follows the parts of a path from part `i` on, from the directory whose
/// chain starts at `cluster`: each part names an entry of the directory
/// reached; a directory is entered, a file must be named by the last part
/// (a path that goes on through a file names nothing). Without a part left,
/// the last directory entered.
pub open spec fn walk(
    d: Seq<u8>,
    fs: FileSystemInfo,
    cluster: u32,
    parts: Seq<Seq<char>>,
    i: int,
    last: Option<FoundEntry>,
) -> Option<FoundEntry>
    decreases parts.len() - i,
{
    if i < 0 || i >= parts.len() {
        last
    } else {
        let f = dir_entries_of(d, fs, cluster);
        match find_named(f, parts[i], 0) {
            None => None,
            Some(k) => if f[k].0.attributes & ATTR_DIRECTORY != 0 {
                walk(d, fs, entry_cluster(f[k].0), parts, i + 1, Some(f[k]))
            } else if i == parts.len() - 1 {
                Some(f[k])
            } else {
                None
            },
        }
    }
}

/// Whether the walk of [`walk`] from part `i` can read every directory it
/// enters.
pub open spec fn walk_ok(d: Seq<u8>, fs: FileSystemInfo, cluster: u32, parts: Seq<Seq<char>>, i: int) -> bool
    decreases parts.len() - i,
{
    if i < 0 || i >= parts.len() {
        true
    } else {
        &&& chain_ok(d, fs, cluster)
        &&& {
            let f = dir_entries_of(d, fs, cluster);
            match find_named(f, parts[i], 0) {
                None => true,
                Some(k) => f[k].0.attributes & ATTR_DIRECTORY != 0 ==> walk_ok(
                    d,
                    fs,
                    entry_cluster(f[k].0),
                    parts,
                    i + 1,
                ),
            }
        }
    }
}

/// The entry that the path `path` names on the disk `d`, looked up from the
/// root directory (see [`walk`]); a path without parts names the entry of
/// the root directory named "/".
pub open spec fn dir_entry_lookup(d: Seq<u8>, fs: FileSystemInfo, path: Seq<char>) -> Option<FoundEntry> {
    let parts = path_parts(path);
    if parts.len() == 0 {
        let f = dir_entries_of(d, fs, fs.root_dir_cluster);
        match find_named(f, seq!['/'], 0) {
            Some(k) => Some(f[k]),
            None => None,
        }
    } else {
        walk(d, fs, fs.root_dir_cluster, parts, 0, None)
    }
}

/// Whether every directory that the lookup of `path` reads can be read.
pub open spec fn lookup_ok(d: Seq<u8>, fs: FileSystemInfo, path: Seq<char>) -> bool {
    &&& path_parts(path).len() == 0 ==> chain_ok(d, fs, fs.root_dir_cluster)
    &&& walk_ok(d, fs, fs.root_dir_cluster, path_parts(path), 0)
}

/// Whether `v` is the entry `q` found on disk, with its name.
pub open spec fn is_found(v: VfsDirectoryEntry, q: FoundEntry) -> bool {
    &&& v.entry == q.0
    &&& v.name@ == entry_name(q.0, q.1)
    &&& v.offset == q.2
    &&& v.sector == q.3
}

impl FatDriver {
    /// Whether the names in the sectors of the cluster whose first sector
    /// is `first` can all be read (see [`cluster_readable`]).
    fn cluster_is_readable(&self, first: u32) -> (b: bool)
        requires
            (first + self.fs.sectors_per_cluster) * SECTOR_SIZE <= self.device@.len(),
        ensures
            b == cluster_readable(self.device@, first as int, self.fs.sectors_per_cluster as nat),
    {
        let spc = self.fs.sectors_per_cluster as u32;
        let mut readable = true;
        let mut stopped = false;
        let mut i: u32 = 0;
        while i < spc
            invariant
                i <= spc,
                spc == self.fs.sectors_per_cluster,
                (first + spc) * SECTOR_SIZE <= self.device@.len(),
                readable == cluster_readable(self.device@, first as int, i as nat),
                stopped == cluster_found(self.device@, first as int, i as nat).1,
            decreases spc - i,
        {
            let buf = self.read_sector(first, i);
            let (r, any) = scan_sector_state(&buf);
            readable = readable && (stopped || r);
            stopped = stopped || !any;
            i = i + 1;
        }
        readable
    }

    /// Whether the directory whose chain starts at `cluster` can be read:
    /// the chain ends within the volume's clusters and every name in it can
    /// be read (see [`chain_ok`]), as [`FatDriver::get_dir_entries`] asks.
    pub fn chain_is_readable(&self, cluster: u32) -> (b: bool)
        requires
            layout_fits(self.fs, self.device@.len() as int),
        ensures
            b == chain_ok(self.device@, self.fs, cluster),
    {
        let mut c = cluster;
        let mut fuel: u32 = self.fs.total_clusters;
        loop
            invariant
                layout_fits(self.fs, self.device@.len() as int),
                (chain(self.device@, self.fs, c, fuel as nat) is Some) == chain_ok(self.device@, self.fs, cluster),
            decreases fuel,
        {
            if !(c != CLUSTER_FREE && c < CLUSTER_LAST) {
                return true;
            }
            if fuel == 0 {
                return false;
            }
            if !(2 <= c && c < self.fs.total_clusters) {
                return false;
            }
            let spc = self.fs.sectors_per_cluster as u64;
            assert((c as u64 - 2) * spc <= 0xFFFF_FFFF * 255) by (nonlinear_arith)
                requires
                    c as u64 - 2 <= 0xFFFF_FFFF,
                    spc <= 255,
            ;
            let first: u64 = self.fs.first_data_sector as u64 + (c as u64 - 2) * spc;
            if first + spc > 0xFFFF_FFFF {
                return false;
            }
            if (first + spc) * 512 > self.device.len() as u64 {
                return false;
            }
            if !self.cluster_is_readable(first as u32) {
                return false;
            }
            c = self.get_next_cluster(c);
            fuel = fuel - 1;
        }
    }

    /// Whether the layout of the volume fits its disk as the driver needs
    /// (see [`layout_fits`]).
    pub fn fits_disk(&self) -> (ok: bool)
        ensures
            ok == layout_fits(self.fs, self.device@.len() as int),
    {
        let fs = &self.fs;
        let fat_sectors: u64 = fs.first_fat_sector as u64 + (fs.total_clusters as u64 * 4) / 512 + 1;
        fs.bytes_per_sector as usize == SECTOR_SIZE && fs.sectors_per_cluster > 0 && fs.total_clusters as u64 * 4
            <= 0xFFFF_FFFF && fat_sectors * 512 <= self.device.len() as u64 && fat_sectors <= 0xFFFF_FFFF
    }

    /// Mounts the FAT volume on `device`: reads its boot sector and works
    /// out its layout.
    pub fn mount(device: Disk) -> (d: Self)
        requires
            device@.len() >= SECTOR_SIZE,
            mountable(device@.subrange(0, 512)),
        ensures
            d.device@ == device@,
            d.fs == layout_of(device@.subrange(0, 512)),
    {
        let buffer = device.read_sector(0);
        let boot_sector = Fat32BootSector::from_bytes(buffer.as_slice());
        let bytes_per_sector = boot_sector.bytes_per_sector as u32;
        let root_sectors = ((boot_sector.root_dir_entries as u32 * 32) + (bytes_per_sector - 1))
            / bytes_per_sector;
        let first_fat_sector = boot_sector.reserved_sectors as u32;
        let first_data_sector = first_fat_sector + (boot_sector.fat_count as u32
            * boot_sector.sectors_per_fat_large as u32);
        proof {
            let x = bytes_per_sector;
            let y = boot_sector.sectors_per_cluster;
            assert(x * y <= 0xFFFF * 0xFF) by (nonlinear_arith)
                requires
                    x <= 0xFFFF,
                    y <= 0xFF,
            ;
        }
        let cluster_size = bytes_per_sector * boot_sector.sectors_per_cluster as u32;
        let total_clusters = (boot_sector.total_sectors_large - first_data_sector)
            / boot_sector.sectors_per_cluster as u32;
        let fs_info = FileSystemInfo {
            start_sector: 0,
            sectors_count: boot_sector.total_sectors_large as u64,
            bytes_per_sector: boot_sector.bytes_per_sector,
            root_sectors,
            sectors_per_cluster: boot_sector.sectors_per_cluster,
            cluster_size,
            first_data_sector,
            first_fat_sector,
            root_dir_cluster: boot_sector.root_dir_start,
            total_clusters,
            root_dir_entries: boot_sector.root_dir_entries,
        };
        FatDriver { fs: fs_info, device }
    }

    /// Whether `cluster` is a cluster of a chain: neither free nor its end.
    fn is_valid_cluster(&self, cluster: u32) -> (b: bool)
        ensures
            b == (cluster != CLUSTER_FREE && cluster < CLUSTER_LAST),
    {
        (cluster != CLUSTER_FREE) && (cluster < CLUSTER_LAST)
    }

    /// The first sector of `cluster`.
    pub(crate) fn get_sector(&self, cluster: u32) -> (s: u32)
        requires
            cluster >= 2,
            self.fs.first_data_sector + (cluster - 2) * self.fs.sectors_per_cluster <= u32::MAX,
        ensures
            s == self.fs.first_data_sector + (cluster - 2) * self.fs.sectors_per_cluster,
    {
        proof {
            assert((cluster - 2) * self.fs.sectors_per_cluster >= 0) by (nonlinear_arith)
                requires
                    cluster >= 2,
            ;
        }
        self.fs.first_data_sector + (cluster - 2) * self.fs.sectors_per_cluster as u32
    }

    /// The sector of the FAT that holds the entry of `cluster`, and the
    /// entry's place in it.
    fn get_fat_sector(&self, cluster: u32) -> (r: (u32, u32))
        requires
            layout_fits(self.fs, self.device@.len() as int),
            cluster < self.fs.total_clusters,
        ensures
            r.0 == self.fs.first_fat_sector + (cluster * 4) / 512,
            r.1 == (cluster * 4) % 512,
    {
        proof {
            assert((cluster * 4) / 512 <= (self.fs.total_clusters * 4) / 512) by (nonlinear_arith)
                requires
                    cluster < self.fs.total_clusters,
            ;
        }
        let fat_sector = self.fs.first_fat_sector + (cluster * 4) / self.fs.bytes_per_sector as u32;
        let fat_offset = (cluster * 4) % self.fs.bytes_per_sector as u32;
        (fat_sector, fat_offset)
    }

    /// The cluster that follows `cluster` in its chain: its FAT entry.
    pub fn get_next_cluster(&self, cluster: u32) -> (next: u32)
        requires
            layout_fits(self.fs, self.device@.len() as int),
            cluster < self.fs.total_clusters,
        ensures
            next == fat_entry(self.device@, self.fs, cluster),
    {
        let (fat_sector, fat_offset) = self.get_fat_sector(cluster);
        proof {
            lemma_fat_pos(self.fs, cluster);
            assert((cluster * 4) / 512 <= (self.fs.total_clusters * 4) / 512) by (nonlinear_arith)
                requires
                    cluster < self.fs.total_clusters,
            ;
        }
        let buffer = self.device.read_sector(fat_sector as u64);
        let value = read_u32(buffer.as_slice(), fat_offset as usize);
        proof {
            let d = self.device@;
            let base = fat_sector * 512;
            assert(le32(buffer@, fat_offset as int) == le32(d, base + fat_offset));
        }
        value & 0x0FFFFFFF
    }

    /// Sets the FAT entry of `cluster` to `next_cluster`, keeping the
    /// entry's top 4 bits.
    pub fn set_next_cluster(&mut self, cluster: u32, next_cluster: u32)
        requires
            layout_fits(old(self).fs, old(self).device@.len() as int),
            cluster < old(self).fs.total_clusters,
        ensures
            final(self).fs == old(self).fs,
            final(self).device@ == with_fat_entry(old(self).device@, old(self).fs, cluster, next_cluster),
    {
        let (fat_sector, fat_offset) = self.get_fat_sector(cluster);
        proof {
            lemma_fat_pos(self.fs, cluster);
            assert((cluster * 4) / 512 <= (self.fs.total_clusters * 4) / 512) by (nonlinear_arith)
                requires
                    cluster < self.fs.total_clusters,
            ;
        }
        let ghost d = self.device@;
        let mut buffer = self.device.read_sector(fat_sector as u64);
        let old_value = read_u32(buffer.as_slice(), fat_offset as usize);
        let value = (old_value & 0xF0000000) | (next_cluster & 0x0FFFFFFF);
        let off = fat_offset as usize;
        buffer.set(off, (value % 256) as u8);
        buffer.set(off + 1, ((value / 256) % 256) as u8);
        buffer.set(off + 2, ((value / 65536) % 256) as u8);
        buffer.set(off + 3, (value / 16777216) as u8);
        self.device.write_sector(fat_sector as u64, &buffer);
        proof {
            let base = fat_sector * 512;
            let pos = base + fat_offset;
            assert(le32(d, pos) == old_value);
            assert(self.device@ =~= with_u32(d, pos, value));
        }
    }

    /// The first free cluster from the root directory's cluster on, marked
    /// as the last of a chain; `None`, with nothing changed, when every
    /// cluster is taken.
    pub fn alloc_cluster(&mut self) -> (r: Option<u32>)
        requires
            layout_fits(old(self).fs, old(self).device@.len() as int),
        ensures
            final(self).fs == old(self).fs,
            match first_free_cluster(
                old(self).device@,
                old(self).fs,
                old(self).fs.root_dir_cluster as int,
                old(self).fs.total_clusters as int,
            ) {
                Some(c) => r == Some(c) && final(self).device@ == with_fat_entry(
                    old(self).device@,
                    old(self).fs,
                    c,
                    CLUSTER_LAST,
                ),
                None => r is None && final(self).device@ == old(self).device@,
            },
    {
        let ghost d = self.device@;
        let mut cluster = self.fs.root_dir_cluster;
        while cluster < self.fs.total_clusters
            invariant
                self.fs == old(self).fs,
                self.device@ == d,
                d == old(self).device@,
                layout_fits(self.fs, d.len() as int),
                self.fs.root_dir_cluster <= cluster,
                first_free_cluster(d, self.fs, self.fs.root_dir_cluster as int, self.fs.total_clusters as int)
                    == first_free_cluster(d, self.fs, cluster as int, self.fs.total_clusters as int),
            decreases self.fs.total_clusters - cluster,
        {
            if self.get_next_cluster(cluster) == CLUSTER_FREE {
                self.set_next_cluster(cluster, CLUSTER_LAST);
                return Some(cluster);
            }
            cluster = cluster + 1;
        }
        None
    }

    /// The cluster after `current_cluster` in its chain; when the chain ends
    /// there, a newly allocated cluster, linked after it; `None` when none
    /// can be allocated.
    pub fn next_cluster(&mut self, current_cluster: u32) -> (r: Option<u32>)
        requires
            layout_fits(old(self).fs, old(self).device@.len() as int),
            current_cluster < old(self).fs.total_clusters,
        ensures
            final(self).fs == old(self).fs,
            match next_link(old(self).device@, old(self).fs, current_cluster) {
                Some(p) => r == Some(p.1) && final(self).device@ == p.0,
                None => r is None && final(self).device@ == old(self).device@,
            },
    {
        let next_cluster = self.get_next_cluster(current_cluster);
        if next_cluster >= CLUSTER_LAST {
            match self.alloc_cluster() {
                Some(new_cluster) => {
                    proof {
                        lemma_first_free_range(
                            old(self).device@,
                            old(self).fs,
                            old(self).fs.root_dir_cluster as int,
                            old(self).fs.total_clusters as int,
                        );
                        lemma_with_u32_len(old(self).device@, old(self).fs, new_cluster, CLUSTER_LAST);
                    }
                    self.set_next_cluster(current_cluster, new_cluster);
                    Some(new_cluster)
                },
                None => None,
            }
        } else {
            Some(next_cluster)
        }
    }

    /// The entries of the directory sector `buffer`, read from disk sector
    /// `sector`, as [`scan_sector`] finds them, each with its name.
    pub fn read_sector_entries(&self, sector: u32, buffer: &[u8]) -> (entries: Vec<VfsDirectoryEntry>)
        requires
            self.fs.bytes_per_sector == SECTOR_SIZE,
            buffer@.len() == SECTOR_SIZE,
            scan_sector(buffer@, 16).readable,
        ensures
            entries@.len() == scan_sector(buffer@, 16).found.len(),
            forall|k: int|
                0 <= k < entries@.len() ==> {
                    let (e, lfn, off) = #[trigger] scan_sector(buffer@, 16).found[k];
                    &&& entries@[k].entry == e
                    &&& entries@[k].name@ == entry_name(e, lfn)
                    &&& entries@[k].sector == sector
                    &&& entries@[k].offset == off
                },
    {
        let mut entries: Vec<VfsDirectoryEntry> = Vec::new();
        let mut lfn_entries: Vec<LongDirectoryEntry> = Vec::new();
        let count = self.fs.bytes_per_sector / 32;
        let mut i: u16 = 0;
        while i < count
            invariant
                count == 16,
                buffer@.len() == SECTOR_SIZE,
                scan_sector(buffer@, 16).readable,
                i <= 16,
                !scan_sector(buffer@, i as nat).ended,
                lfn_entries@ == scan_sector(buffer@, i as nat).lfn,
                entries@.len() == scan_sector(buffer@, i as nat).found.len(),
                forall|k: int|
                    0 <= k < entries@.len() ==> {
                        let (e, lfn, off) = #[trigger] scan_sector(buffer@, i as nat).found[k];
                        &&& entries@[k].entry == e
                        &&& entries@[k].name@ == entry_name(e, lfn)
                        &&& entries@[k].sector == sector
                        &&& entries@[k].offset == off
                    },
            decreases 16 - i,
        {
            let off = (i as usize) * 32;
            proof {
                lemma_scan_readable(buffer@, (i + 1) as nat, 16);
            }
            let entry = DirectoryEntry::from_bytes(buffer, off);
            if entry.name[0] == ENTRY_END {
                proof {
                    lemma_scan_ended(buffer@, (i + 1) as nat, 16);
                }
                return entries;
            }
            if entry.name[0] == ENTRY_FREE || entry.name[0] == ENTRY_DELETED {
                i = i + 1;
            } else if entry.attributes == ENTRY_LONG {
                lfn_entries.push(LongDirectoryEntry::from_bytes(buffer, off));
                i = i + 1;
            } else {
                let offset = (i as u32) * 32;
                let node = VfsDirectoryEntry::from_entry(entry, &mut lfn_entries, sector, offset);
                entries.push(node);
                proof {
                    assert(lfn_entries@ =~= Seq::<LongDirectoryEntry>::empty());
                }
                i = i + 1;
            }
        }
        entries
    }

    /// The bytes of sector `sector + offset`.
    pub(crate) fn read_sector(&self, sector: u32, offset: u32) -> (buf: Vec<u8>)
        requires
            (sector + offset + 1) * SECTOR_SIZE <= self.device@.len(),
        ensures
            buf@ == sector_bytes(self.device@, sector + offset),
    {
        self.device.read_sector(sector as u64 + offset as u64)
    }

    /// The entries of the cluster whose first sector is `sector`, read
    /// sector by sector until one holds none.
    fn read_cluster_entries(&self, sector: u32) -> (entries: Vec<VfsDirectoryEntry>)
        requires
            self.fs.bytes_per_sector == SECTOR_SIZE,
            sector + self.fs.sectors_per_cluster <= u32::MAX,
            (sector + self.fs.sectors_per_cluster) * SECTOR_SIZE <= self.device@.len(),
            cluster_readable(self.device@, sector as int, self.fs.sectors_per_cluster as nat),
        ensures
            ({
                let f = cluster_found(self.device@, sector as int, self.fs.sectors_per_cluster as nat).0;
                &&& entries@.len() == f.len()
                &&& forall|k: int|
                    0 <= k < f.len() ==> {
                        let (e, lfn, off) = #[trigger] f[k];
                        &&& entries@[k].entry == e
                        &&& entries@[k].name@ == entry_name(e, lfn)
                        &&& entries@[k].sector == sector
                        &&& entries@[k].offset == off
                    }
            }),
    {
        let ghost d = self.device@;
        let mut entries: Vec<VfsDirectoryEntry> = Vec::new();
        let mut i: u8 = 0;
        while i < self.fs.sectors_per_cluster
            invariant
                d == self.device@,
                self.fs.bytes_per_sector == SECTOR_SIZE,
                sector + self.fs.sectors_per_cluster <= u32::MAX,
                (sector + self.fs.sectors_per_cluster) * SECTOR_SIZE <= d.len(),
                cluster_readable(d, sector as int, self.fs.sectors_per_cluster as nat),
                i <= self.fs.sectors_per_cluster,
                !cluster_found(d, sector as int, i as nat).1,
                ({
                    let f = cluster_found(d, sector as int, i as nat).0;
                    &&& entries@.len() == f.len()
                    &&& forall|k: int|
                        0 <= k < f.len() ==> {
                            let (e, lfn, off) = #[trigger] f[k];
                            &&& entries@[k].entry == e
                            &&& entries@[k].name@ == entry_name(e, lfn)
                            &&& entries@[k].sector == sector
                            &&& entries@[k].offset == off
                        }
                }),
            decreases self.fs.sectors_per_cluster - i,
        {
            proof {
                lemma_cluster_readable(d, sector as int, (i + 1) as nat, self.fs.sectors_per_cluster as nat);
            }
            let read_buffer = self.read_sector(sector, i as u32);
            let mut sector_entries = self.read_sector_entries(sector, read_buffer.as_slice());
            if sector_entries.len() == 0 {
                proof {
                    lemma_cluster_stopped(d, sector as int, (i + 1) as nat, self.fs.sectors_per_cluster as nat);
                }
                return entries;
            }
            let ghost before = entries@;
            entries.append(&mut sector_entries);
            i = i + 1;
        }
        entries
    }

    /// The entries of the directory whose chain of clusters starts at
    /// `cluster`, cluster after cluster, each with the first sector of its
    /// cluster.
    pub fn get_dir_entries(&self, cluster: u32) -> (entries: Vec<VfsDirectoryEntry>)
        requires
            layout_fits(self.fs, self.device@.len() as int),
            chain(self.device@, self.fs, cluster, self.fs.total_clusters as nat) is Some,
        ensures
            ({
                let f = dir_found(
                    self.device@,
                    self.fs,
                    chain(self.device@, self.fs, cluster, self.fs.total_clusters as nat)->0,
                );
                &&& entries@.len() == f.len()
                &&& forall|k: int|
                    0 <= k < f.len() ==> {
                        let (e, lfn, off, sector) = #[trigger] f[k];
                        &&& entries@[k].entry == e
                        &&& entries@[k].name@ == entry_name(e, lfn)
                        &&& entries@[k].sector == sector
                        &&& entries@[k].offset == off
                    }
            }),
    {
        let ghost d = self.device@;
        let ghost fs = self.fs;
        let ghost whole = chain(d, fs, cluster, fs.total_clusters as nat)->0;
        let ghost mut fuel: nat = fs.total_clusters as nat;
        let ghost mut done: Seq<u32> = Seq::empty();
        let mut entries: Vec<VfsDirectoryEntry> = Vec::new();
        let mut current_cluster = cluster;
        while self.is_valid_cluster(current_cluster)
            invariant
                d == self.device@,
                fs == self.fs,
                layout_fits(fs, d.len() as int),
                chain(d, fs, current_cluster, fuel) is Some,
                whole == done + chain(d, fs, current_cluster, fuel)->0,
                ({
                    let f = dir_found(d, fs, done);
                    &&& entries@.len() == f.len()
                    &&& forall|k: int|
                        0 <= k < f.len() ==> {
                            let (e, lfn, off, sector) = #[trigger] f[k];
                            &&& entries@[k].entry == e
                            &&& entries@[k].name@ == entry_name(e, lfn)
                            &&& entries@[k].sector == sector
                            &&& entries@[k].offset == off
                        }
                }),
            decreases fuel,
        {
            let ghost rest = chain(d, fs, fat_entry(d, fs, current_cluster), (fuel - 1) as nat)->0;
            let sector = self.get_sector(current_cluster);
            let mut cluster_entries = self.read_cluster_entries(sector);
            let ghost before = entries@;
            entries.append(&mut cluster_entries);
            proof {
                let done2 = done.push(current_cluster);
                assert(done2.drop_last() =~= done);
                assert(done2.last() == current_cluster);
                assert(whole =~= done2 + rest);
                let f = dir_found(d, fs, done2);
                assert forall|k: int| 0 <= k < f.len() implies {
                    let (e, lfn, off, sector) = #[trigger] f[k];
                    &&& entries@[k].entry == e
                    &&& entries@[k].name@ == entry_name(e, lfn)
                    &&& entries@[k].sector == sector
                    &&& entries@[k].offset == off
                } by {
                    let f0 = dir_found(d, fs, done);
                    if k < f0.len() {
                        assert(f[k] == f0[k]);
                    } else {
                        let cf = cluster_found(d, cluster_sector(fs, current_cluster), fs.sectors_per_cluster as nat).0;
                        assert(f[k] == (cf[k - f0.len()].0, cf[k - f0.len()].1, cf[k - f0.len()].2, sector));
                    }
                }
                done = done2;
                fuel = (fuel - 1) as nat;
            }
            current_cluster = self.get_next_cluster(current_cluster);
        }
        proof {
            assert(done + Seq::<u32>::empty() =~= done);
        }
        entries
    }

    /// The first entry of the directory whose chain starts at `cluster`
    /// whose name matches `name` but for the case of ASCII letters.
    fn search_in_dir(&self, cluster: u32, name: &Vec<char>) -> (r: Option<VfsDirectoryEntry>)
        requires
            layout_fits(self.fs, self.device@.len() as int),
            chain_ok(self.device@, self.fs, cluster),
        ensures
            ({
                let f = dir_entries_of(self.device@, self.fs, cluster);
                match find_named(f, name@, 0) {
                    Some(k) => r matches Some(v) && is_found(v, f[k]),
                    None => r is None,
                }
            }),
    {
        let mut entries = self.get_dir_entries(cluster);
        let ghost f = dir_entries_of(self.device@, self.fs, cluster);
        let mut i: usize = 0;
        while i < entries.len()
            invariant
                f == dir_entries_of(self.device@, self.fs, cluster),
                entries@.len() == f.len(),
                forall|k: int| 0 <= k < f.len() ==> is_found(#[trigger] entries@[k], f[k]),
                i <= entries@.len(),
                find_named(f, name@, 0) == find_named(f, name@, i as int),
            decreases entries@.len() - i,
        {
            let entry_name_chars = chars_of(entries[i].name.as_str());
            if eq_ignore_ascii_case(&entry_name_chars, name) {
                assert(is_found(entries@[i as int], f[i as int]));
                let found = entries.remove(i);
                return Some(found);
            }
            i = i + 1;
        }
        None
    }

    /// The entry at `path`, followed from the root directory part by part
    /// (see [`walk`]); for the root path, an entry named "/" of the root
    /// directory.
    pub fn get_dir_entry(&self, path: &str) -> (r: Option<VfsDirectoryEntry>)
        requires
            layout_fits(self.fs, self.device@.len() as int),
            lookup_ok(self.device@, self.fs, path@),
        ensures
            match dir_entry_lookup(self.device@, self.fs, path@) {
                Some(e) => r matches Some(v) && is_found(v, e),
                None => r is None,
            },
    {
        let path_parts = split_path(path);
        if path_parts.len() == 0 {
            let mut root_name: Vec<char> = Vec::new();
            root_name.push('/');
            assert(root_name@ =~= seq!['/']);
            return self.search_in_dir(self.fs.root_dir_cluster, &root_name);
        }
        let ghost parts = crate::fs::text::path_parts(path@);
        let mut current_cluster = self.fs.root_dir_cluster;
        let mut last_entry: Option<VfsDirectoryEntry> = None;
        let ghost mut last_q: Option<FoundEntry> = None;
        let mut i: usize = 0;
        while i < path_parts.len()
            invariant
                layout_fits(self.fs, self.device@.len() as int),
                walk_ok(self.device@, self.fs, current_cluster, parts, i as int),
                parts == crate::fs::text::path_parts(path@),
                path_parts@.len() == parts.len(),
                forall|j: int| 0 <= j < parts.len() ==> (#[trigger] path_parts@[j])@ == parts[j],
                i <= parts.len(),
                walk(self.device@, self.fs, self.fs.root_dir_cluster, parts, 0, None) == walk(
                    self.device@,
                    self.fs,
                    current_cluster,
                    parts,
                    i as int,
                    last_q,
                ),
                match last_q {
                    Some(e) => last_entry matches Some(v) && is_found(v, e),
                    None => last_entry is None,
                },
            decreases parts.len() - i,
        {
            let part = &path_parts[i];
            let entry = match self.search_in_dir(current_cluster, part) {
                Some(e) => e,
                None => {
                    return None;
                },
            };
            let ghost f = dir_entries_of(self.device@, self.fs, current_cluster);
            let ghost k = find_named(f, parts[i as int], 0)->0;
            if entry.is_dir() {
                current_cluster = entry.get_cluster();
                proof {
                    last_q = Some(f[k]);
                }
                last_entry = Some(entry);
            } else if i + 1 == path_parts.len() {
                return Some(entry);
            } else {
                return None;
            }
            i = i + 1;
        }
        last_entry
    }
}

} // verus!
