use vstd::prelude::*;
use crate::fs::disk::{le16, le32, read_u32, Disk, SECTOR_SIZE};
use crate::fs::fat::boot_sector::Fat32BootSector;
use crate::fs::fat::dir_entry::{entry_at, DirectoryEntry};
use crate::fs::fat::fat_driver::{
    cluster_sector, fat_entry, fat_pos, first_free_cluster, layout_fits, mountable, sector_bytes, FileSystemInfo,
    ATTR_DIRECTORY, CLUSTER_FREE, CLUSTER_LAST, ENTRY_DELETED, ENTRY_END, ENTRY_FREE, ENTRY_LONG,
};
use crate::fs::fat::fat_write::{
    cluster_on_disk, clusters_bytes, file_chain, free_run_cluster, free_run_sector, lemma_free_cluster_on_disk,
    lemma_free_cluster_stopped, lemma_free_sector_stopped, no_run, plain_entry_bytes, run_on_disk, with_bytes,
    FreeRun, Located,
};
use crate::fs::fat::long_dir_entry::{lfn_at, LongDirectoryEntry};
use crate::fs::fat::{create_short_filename as short_filename_of, short_name_of};
use crate::fs::node::VfsEntry;
use crate::fs::text::{chars_of, eq_ignore_ascii_case, eq_ignore_ascii_case_spec, lowercase, path_parts, split_path, string_of_chars, utf8_lossy};
use crate::fs::vfs_dir_entry::{entry_name, name_readable, short_name_text, VfsDirectoryEntry};

verus! {

/// The layout of a FAT32 volume, worked out from its boot sector.
#[derive(Debug, Clone, Copy, PartialEq, Eq, Structural)]
pub struct FatFileSystem {
    /// The sector of the device where the volume starts.
    pub start_sector: u64,
    /// The number of sectors of the volume.
    pub sectors_count: u64,
    /// Bytes per sector.
    pub bytes_per_sector: u16,
    /// Sectors of the root directory (none for FAT32).
    pub root_sectors: u32,
    /// Sectors per cluster.
    pub sectors_per_cluster: u8,
    /// Bytes per cluster.
    pub cluster_size: u32,
    /// The first sector of the data area, where cluster 2 starts.
    pub first_data_sector: u32,
    /// The first sector of the FAT.
    pub first_fat_sector: u32,
    /// The first cluster of the root directory.
    pub root_dir_cluster: u32,
    /// The number of clusters of the data area.
    pub total_clusters: u32,
    /// Entries of the root directory (none for FAT32).
    pub root_dir_entries: u16,
}

/// A place on the disk: a cluster, a sector and a byte in it.
#[derive(Debug, Clone, Copy)]
pub struct DiskLocation {
    /// The cluster.
    pub cluster: u32,
    /// The sector.
    pub sector: u32,
    /// The byte in the sector.
    pub offset: u32,
}

/// A driver of a FAT32 volume on a disk, known by the serial number of
/// its boot sector.
pub struct FatDriver {
    /// The serial number of the volume.
    pub volume_id: u32,
    /// The layout of the volume.
    pub fs: FatFileSystem,
    /// The disk.
    pub device: Disk,
}

/// The layout `fs` in the terms of the volume layouts of the other driver.
pub open spec fn info(fs: FatFileSystem) -> FileSystemInfo {
    FileSystemInfo {
        start_sector: fs.start_sector,
        sectors_count: fs.sectors_count,
        bytes_per_sector: fs.bytes_per_sector,
        root_sectors: fs.root_sectors,
        sectors_per_cluster: fs.sectors_per_cluster,
        cluster_size: fs.cluster_size,
        first_data_sector: fs.first_data_sector,
        first_fat_sector: fs.first_fat_sector,
        root_dir_cluster: fs.root_dir_cluster,
        total_clusters: fs.total_clusters,
        root_dir_entries: fs.root_dir_entries,
    }
}

/// The layout that the boot sector held in `b` describes, for a volume that
/// starts at sector `start` and has `count` sectors.
pub open spec fn layout32(b: Seq<u8>, start: u64, count: u64) -> FatFileSystem {
    let bps = le16(b, 11);
    let spc = b[13] as int;
    let first_data = le16(b, 14) + b[16] * le32(b, 36);
    FatFileSystem {
        start_sector: start,
        sectors_count: count,
        bytes_per_sector: bps as u16,
        root_sectors: ((le16(b, 17) * 32 + bps - 1) / bps) as u32,
        sectors_per_cluster: spc as u8,
        cluster_size: (bps * spc) as u32,
        first_data_sector: first_data as u32,
        first_fat_sector: le16(b, 14) as u32,
        root_dir_cluster: le32(b, 44) as u32,
        total_clusters: ((le32(b, 32) - first_data) / spc) as u32,
        root_dir_entries: le16(b, 17) as u16,
    }
}

/// What reading a directory has found so far: the entries, each with the
/// long name entries read before it, its sector and the place recorded for
/// it (its index in the sector plus 32); the long name entries read since
/// the last entry; whether the end was met; whether every name found can be
/// read.
pub struct DirScan {
    pub found: Seq<(DirectoryEntry, Seq<LongDirectoryEntry>, u32, u32)>,
    pub lfn: Seq<LongDirectoryEntry>,
    pub ended: bool,
    pub readable: bool,
}

/// The empty reading.
pub open spec fn no_scan() -> DirScan {
    DirScan { found: Seq::empty(), lfn: Seq::empty(), ended: false, readable: true }
}

/// Reading the first `n` entries of the directory sector `buf`, numbered
/// `sector`, from `st`: an entry whose name starts with 0 ends the reading,
/// free and deleted entries are skipped, long name entries are gathered,
/// and every other entry is found with the long name entries gathered.
pub open spec fn scan32_sector(buf: Seq<u8>, sector: u32, st: DirScan, n: nat) -> DirScan
    decreases n,
{
    if n == 0 {
        st
    } else {
        let s = scan32_sector(buf, sector, st, (n - 1) as nat);
        let j = n - 1;
        let off = j * 32;
        if s.ended {
            s
        } else if buf[off] == ENTRY_END {
            DirScan { ended: true, ..s }
        } else if buf[off] == ENTRY_FREE || buf[off] == ENTRY_DELETED {
            s
        } else if buf[off + 11] == ENTRY_LONG {
            DirScan { lfn: s.lfn.push(lfn_at(buf, off)), ..s }
        } else {
            DirScan {
                found: s.found.push((entry_at(buf, off), s.lfn, sector, (j + 32) as u32)),
                lfn: Seq::empty(),
                ended: false,
                readable: s.readable && name_readable(s.lfn),
            }
        }
    }
}

/// Reading the first `n` sectors of the cluster whose first sector is
/// `first`, 16 entries each, from `st`.
pub open spec fn scan32_cluster(d: Seq<u8>, first: int, st: DirScan, n: nat) -> DirScan
    decreases n,
{
    if n == 0 {
        st
    } else {
        let s = scan32_cluster(d, first, st, (n - 1) as nat);
        if s.ended {
            s
        } else {
            scan32_sector(sector_bytes(d, first + n - 1), (first + n - 1) as u32, s, 16)
        }
    }
}

/// Reading the directory whose chain starts at `cluster`, from `st`: its
/// clusters one after the other, until the end is met or the chain ends at
/// a free cluster or an end value; `None` where a cluster is not on the
/// disk or the chain is longer than `fuel`.
pub open spec fn scan32(d: Seq<u8>, fs: FatFileSystem, cluster: u32, st: DirScan, fuel: nat) -> Option<DirScan>
    decreases fuel,
{
    if !(cluster != CLUSTER_FREE && cluster < CLUSTER_LAST) {
        Some(st)
    } else if fuel == 0 || !cluster_on_disk(d, info(fs), cluster) {
        None
    } else {
        let s = scan32_cluster(d, cluster_sector(info(fs), cluster), st, fs.sectors_per_cluster as nat);
        if s.ended {
            Some(s)
        } else {
            scan32(d, fs, fat_entry(d, info(fs), cluster), s, (fuel - 1) as nat)
        }
    }
}

/// The reading of the directory at `cluster` from nothing.
pub open spec fn dir_scan(d: Seq<u8>, fs: FatFileSystem, cluster: u32) -> Option<DirScan> {
    scan32(d, fs, cluster, no_scan(), fs.total_clusters as nat)
}

/// Whether `a` starts with `b`.
pub open spec fn extends<T>(a: Seq<T>, b: Seq<T>) -> bool {
    b.len() <= a.len() && a.subrange(0, b.len() as int) == b
}

proof fn lemma_sector_grows(buf: Seq<u8>, sector: u32, st: DirScan, m: nat, n: nat)
    requires
        m <= n,
    ensures
        extends(scan32_sector(buf, sector, st, n).found, scan32_sector(buf, sector, st, m).found),
        scan32_sector(buf, sector, st, m).ended ==> scan32_sector(buf, sector, st, n) == scan32_sector(
            buf,
            sector,
            st,
            m,
        ),
        extends(scan32_sector(buf, sector, st, n).found, st.found),
    decreases n,
{
    let a = scan32_sector(buf, sector, st, n).found;
    assert(a.subrange(0, a.len() as int) =~= a);
    assert(st.found.subrange(0, st.found.len() as int) =~= st.found);
    if n > 0 {
        if m < n {
            lemma_sector_grows(buf, sector, st, m, (n - 1) as nat);
        }
        lemma_sector_grows(buf, sector, st, 0, (n - 1) as nat);
        let b = scan32_sector(buf, sector, st, (n - 1) as nat).found;
        let c = scan32_sector(buf, sector, st, m).found;
        assert(a.subrange(0, b.len() as int) =~= b);
        assert(extends(a, b));
        if m < n {
            assert(a.subrange(0, c.len() as int) =~= b.subrange(0, c.len() as int));
        }
        assert(a.subrange(0, st.found.len() as int) =~= b.subrange(0, st.found.len() as int));
    }
}

proof fn lemma_cluster_grows(d: Seq<u8>, first: int, st: DirScan, m: nat, n: nat)
    requires
        m <= n,
    ensures
        extends(scan32_cluster(d, first, st, n).found, scan32_cluster(d, first, st, m).found),
        scan32_cluster(d, first, st, m).ended ==> scan32_cluster(d, first, st, n) == scan32_cluster(
            d,
            first,
            st,
            m,
        ),
        extends(scan32_cluster(d, first, st, n).found, st.found),
    decreases n,
{
    let a = scan32_cluster(d, first, st, n).found;
    assert(a.subrange(0, a.len() as int) =~= a);
    assert(st.found.subrange(0, st.found.len() as int) =~= st.found);
    if n > 0 {
        if m < n {
            lemma_cluster_grows(d, first, st, m, (n - 1) as nat);
        }
        lemma_cluster_grows(d, first, st, 0, (n - 1) as nat);
        let prev = scan32_cluster(d, first, st, (n - 1) as nat);
        lemma_sector_grows(sector_bytes(d, first + n - 1), (first + n - 1) as u32, prev, 0, 16);
        let b = prev.found;
        assert(prev.found.subrange(0, prev.found.len() as int) =~= prev.found);
        let c = scan32_cluster(d, first, st, m).found;
        assert(extends(a, b));
        if m < n {
            assert(a.subrange(0, c.len() as int) =~= b.subrange(0, c.len() as int));
        }
        assert(a.subrange(0, st.found.len() as int) =~= b.subrange(0, st.found.len() as int));
    }
}

proof fn lemma_chain_grows(d: Seq<u8>, fs: FatFileSystem, cluster: u32, st: DirScan, fuel: nat)
    ensures
        scan32(d, fs, cluster, st, fuel) matches Some(r) ==> extends(r.found, st.found),
    decreases fuel,
{
    assert(st.found.subrange(0, st.found.len() as int) =~= st.found);
    if cluster != CLUSTER_FREE && cluster < CLUSTER_LAST && fuel > 0 && cluster_on_disk(d, info(fs), cluster) {
        let s = scan32_cluster(d, cluster_sector(info(fs), cluster), st, fs.sectors_per_cluster as nat);
        lemma_cluster_grows(d, cluster_sector(info(fs), cluster), st, 0, fs.sectors_per_cluster as nat);
        if !s.ended {
            lemma_chain_grows(d, fs, fat_entry(d, info(fs), cluster), s, (fuel - 1) as nat);
            if let Some(r) = scan32(d, fs, cluster, st, fuel) {
                assert(r.found.subrange(0, st.found.len() as int) =~= r.found.subrange(0, s.found.len() as int).subrange(
                    0,
                    st.found.len() as int,
                ));
                assert(s.found.subrange(0, st.found.len() as int) == st.found);
            }
        }
    }
}

proof fn lemma_extends_trans<T>(a: Seq<T>, b: Seq<T>, c: Seq<T>)
    requires
        extends(a, b),
        extends(b, c),
    ensures
        extends(a, c),
{
    assert(a.subrange(0, c.len() as int) =~= b.subrange(0, c.len() as int));
}

/// Where a directory's reading stands in the middle of a sector of one of
/// its clusters, the final reading extends it, and equals it once the end
/// was met.
proof fn lemma_scan_midway(
    d: Seq<u8>,
    fs: FatFileSystem,
    cluster: u32,
    st_c: DirScan,
    fuel: nat,
    fin: DirScan,
    i: nat,
    st_s: DirScan,
    j: nat,
)
    requires
        scan32(d, fs, cluster, st_c, fuel) == Some(fin),
        cluster != CLUSTER_FREE && cluster < CLUSTER_LAST,
        fuel > 0,
        cluster_on_disk(d, info(fs), cluster),
        i < fs.sectors_per_cluster,
        st_s == scan32_cluster(d, cluster_sector(info(fs), cluster), st_c, i),
        !st_s.ended,
        j <= 16,
    ensures
        ({
            let first = cluster_sector(info(fs), cluster);
            let cur = scan32_sector(sector_bytes(d, first + i), (first + i) as u32, st_s, j);
            &&& extends(fin.found, cur.found)
            &&& cur.ended ==> fin == cur
        }),
{
    let first = cluster_sector(info(fs), cluster);
    let buf = sector_bytes(d, first + i);
    let cur = scan32_sector(buf, (first + i) as u32, st_s, j);
    let spc = fs.sectors_per_cluster as nat;
    lemma_sector_grows(buf, (first + i) as u32, st_s, j, 16);
    let after_sector = scan32_cluster(d, first, st_c, i + 1);
    assert(after_sector == scan32_sector(buf, (first + i) as u32, st_s, 16));
    lemma_cluster_grows(d, first, st_c, i + 1, spc);
    let sc = scan32_cluster(d, first, st_c, spc);
    if sc.ended {
        assert(fin == sc);
        assert(fin.found.subrange(0, fin.found.len() as int) =~= fin.found);
    } else {
        lemma_chain_grows(d, fs, fat_entry(d, info(fs), cluster), sc, (fuel - 1) as nat);
    }
    assert(extends(fin.found, sc.found));
    lemma_extends_trans(fin.found, sc.found, after_sector.found);
    lemma_extends_trans(fin.found, after_sector.found, cur.found);
}

/// Whether the directory at `cluster` can be read: its chain ends, and the
/// long name of every entry found in it is valid UTF-8.
pub open spec fn dir_ok(d: Seq<u8>, fs: FatFileSystem, cluster: u32) -> bool {
    dir_scan(d, fs, cluster) matches Some(s) && forall|k: int|
        0 <= k < s.found.len() ==> name_readable(#[trigger] s.found[k].1)
}

/// Whether `v` is the entry `q` found in a directory, with its name.
pub open spec fn is_node(v: VfsEntry, q: (DirectoryEntry, Seq<LongDirectoryEntry>, u32, u32)) -> bool {
    &&& v.entry == q.0
    &&& v.name@ == entry_name(q.0, q.1)
    &&& v.sector == q.2
    &&& v.offset == q.3
}

/// The place of the first of the entries `f` from `k` on whose short name,
/// in lowercase, matches `name` but for the case of ASCII letters.
pub open spec fn find_short(f: Seq<(DirectoryEntry, Seq<LongDirectoryEntry>, u32, u32)>, name: Seq<char>, k: int) -> Option<int>
    decreases f.len() - k,
{
    if k < 0 || k >= f.len() {
        None
    } else if eq_ignore_ascii_case_spec(lowercase(utf8_lossy(short_name_text(f[k].0.name@))), name) {
        Some(k)
    } else {
        find_short(f, name, k + 1)
    }
}

/// The entry named `name` in the directory at `cluster`: the first whose
/// short name matches it (see [`find_short`]).
pub open spec fn dir_find(d: Seq<u8>, fs: FatFileSystem, cluster: u32, name: Seq<char>) -> Option<
    (DirectoryEntry, Seq<LongDirectoryEntry>, u32, u32),
> {
    let f = dir_scan(d, fs, cluster)->0.found;
    match find_short(f, name, 0) {
        Some(k) => Some(f[k]),
        None => None,
    }
}

/// The first cluster of an entry as this driver reads it: the high and low
/// halves of its cluster number combined by a bitwise or, without shifting.
pub open spec fn node_cluster(e: DirectoryEntry) -> u32 {
    (e.high_cluster as u32) | (e.low_cluster as u32)
}

/// The size of the file that `path` names; `None` where it names none or
/// names a directory.
pub open spec fn file_size(d: Seq<u8>, fs: FatFileSystem, path: Seq<char>) -> Option<usize> {
    match node_of(d, fs, path) {
        Some(e) => if e.0.attributes & ATTR_DIRECTORY != 0 {
            None
        } else {
            Some(e.0.size as usize)
        },
        None => None,
    }
}

/// Whether `path` names a file (an entry that is not a directory).
pub open spec fn names_file(d: Seq<u8>, fs: FatFileSystem, path: Seq<char>) -> bool {
    node_of(d, fs, path) matches Some(e) && e.0.attributes & 0x10 == 0
}

/// A path has a size exactly when it names a file: [`FatDriver::size`]
/// answers `Some` where [`FatDriver::file_exists`] answers `true`.
pub proof fn lemma_size_iff_file(d: Seq<u8>, fs: FatFileSystem, path: Seq<char>)
    ensures
        file_size(d, fs, path) is Some <==> names_file(d, fs, path),
{
}

/// Follows the parts of a path from part `i` on, from the directory at
/// `cluster`: each part names an entry of the directory reached; a file is
/// the entry found, wherever it stands in the path; a directory is entered.
/// With the parts used up, nothing.
pub open spec fn node_walk(d: Seq<u8>, fs: FatFileSystem, cluster: u32, parts: Seq<Seq<char>>, i: int) -> Option<
    (DirectoryEntry, Seq<LongDirectoryEntry>, u32, u32),
>
    decreases parts.len() - i,
{
    if i < 0 || i >= parts.len() {
        None
    } else {
        match dir_find(d, fs, cluster, parts[i]) {
            None => None,
            Some(e) => if e.0.attributes & 0x10 != 0 {
                node_walk(d, fs, node_cluster(e.0), parts, i + 1)
            } else {
                Some(e)
            },
        }
    }
}

/// Whether every directory that the walk of [`node_walk`] enters can be
/// read.
pub open spec fn node_walk_ok(d: Seq<u8>, fs: FatFileSystem, cluster: u32, parts: Seq<Seq<char>>, i: int) -> bool
    decreases parts.len() - i,
{
    if i < 0 || i >= parts.len() {
        true
    } else {
        &&& dir_ok(d, fs, cluster)
        &&& match dir_find(d, fs, cluster, parts[i]) {
            None => true,
            Some(e) => e.0.attributes & 0x10 != 0 ==> node_walk_ok(d, fs, node_cluster(e.0), parts, i + 1),
        }
    }
}

/// The entry that `path` names: for a path without parts, the entry of the
/// root directory named "/"; else the walk of [`node_walk`] from the root.
pub open spec fn node_of(d: Seq<u8>, fs: FatFileSystem, path: Seq<char>) -> Option<
    (DirectoryEntry, Seq<LongDirectoryEntry>, u32, u32),
> {
    let parts = path_parts(path);
    if parts.len() == 0 {
        dir_find(d, fs, fs.root_dir_cluster, seq!['/'])
    } else {
        node_walk(d, fs, fs.root_dir_cluster, parts, 0)
    }
}

/// Whether the lookup of [`node_of`] can read what it reads.
pub open spec fn node_ok(d: Seq<u8>, fs: FatFileSystem, path: Seq<char>) -> bool {
    let parts = path_parts(path);
    if parts.len() == 0 {
        dir_ok(d, fs, fs.root_dir_cluster)
    } else {
        node_walk_ok(d, fs, fs.root_dir_cluster, parts, 0)
    }
}

/// What this driver's allocation of a cluster does to the disk `d`: the
/// first free cluster gets the low byte of [`CLUSTER_LAST`] written at the
/// start of its FAT entry; cluster 0 when none is free, the disk unchanged.
/// `None` where the entry does not start its FAT sector: the driver then
/// writes out bytes from past the sector it read.
pub open spec fn alloc32(d: Seq<u8>, fs: FatFileSystem) -> Option<(Seq<u8>, u32)> {
    match first_free_cluster(d, info(fs), fs.root_dir_cluster as int, fs.total_clusters as int) {
        None => Some((d, 0)),
        Some(c) => if (c * 4) % 512 == 0 {
            Some((d.update(fat_pos(info(fs), c), CLUSTER_LAST as u8), c))
        } else {
            None
        },
    }
}

/// Looking for `needed` free entries in a row in the directory chain from
/// `cluster` on, from `run`, as this driver does: past the end of the chain
/// a cluster is allocated (see [`alloc32`]) and the low byte of its number
/// written at the start of the FAT entry of the cluster left.
pub open spec fn free_loc32(d: Seq<u8>, fs: FatFileSystem, cluster: u32, run: FreeRun, needed: nat, fuel: nat) -> Located
    decreases fuel,
{
    if !(cluster != CLUSTER_FREE && cluster < CLUSTER_LAST) {
        Located::Missing(d)
    } else if fuel == 0 || !cluster_on_disk(d, info(fs), cluster) {
        Located::Stuck
    } else {
        let (r, found) = free_run_cluster(
            d,
            cluster_sector(info(fs), cluster),
            run,
            needed,
            fs.sectors_per_cluster as nat,
        );
        if found {
            Located::Found(d, cluster, r.sector, r.offset)
        } else {
            let next = fat_entry(d, info(fs), cluster);
            if next >= CLUSTER_LAST {
                match alloc32(d, fs) {
                    None => Located::Stuck,
                    Some(p) => if (cluster * 4) % 512 == 0 {
                        free_loc32(p.0.update(fat_pos(info(fs), cluster), p.1 as u8), fs, p.1, r, needed, (fuel - 1) as nat)
                    } else {
                        Located::Stuck
                    },
                }
            } else {
                free_loc32(d, fs, next, r, needed, (fuel - 1) as nat)
            }
        }
    }
}

/// What creating a short entry named `name` (see [`short_name_of`]) in the
/// directory at `parent`, pointing at `cluster`, does to the disk `d`:
/// nothing for an empty name; else room for one entry is looked for (see
/// [`free_loc32`]) and the entry is written there with `attributes`, its
/// times and dates zero. `None` where that gets stuck.
pub open spec fn entry32(d: Seq<u8>, fs: FatFileSystem, parent: u32, name: Seq<char>, attributes: u8, cluster: u32) -> Option<
    Seq<u8>,
> {
    if name.len() == 0 {
        Some(d)
    } else {
        match free_loc32(d, fs, parent, no_run(), 1, fs.total_clusters as nat) {
            Located::Stuck => None,
            Located::Missing(d1) => Some(d1),
            Located::Found(d1, c, sector, offset) => if c == 0 {
                Some(d1)
            } else {
                Some(
                    with_bytes(
                        d1,
                        sector * SECTOR_SIZE,
                        with_bytes(
                            sector_bytes(d1, sector as int),
                            offset as int,
                            plain_entry_bytes(short_name_of(name), attributes, 0, 0, 0, cluster),
                        ),
                    ),
                )
            },
        }
    }
}

proof fn lemma_free_loc32(d: Seq<u8>, fs: FatFileSystem, cluster: u32, run: FreeRun, needed: nat, fuel: nat)
    requires
        layout_fits(info(fs), d.len() as int),
        run_on_disk(run, d.len() as int),
    ensures
        free_loc32(d, fs, cluster, run, needed, fuel) matches Located::Found(d1, c, sector, offset) ==> d1.len()
            == d.len() && cluster_on_disk(d1, info(fs), c) && run_on_disk(FreeRun { count: 1, sector, offset }, d.len() as int),
        free_loc32(d, fs, cluster, run, needed, fuel) matches Located::Missing(d1) ==> d1.len() == d.len(),
    decreases fuel,
{
    if cluster != CLUSTER_FREE && cluster < CLUSTER_LAST && fuel > 0 && cluster_on_disk(d, info(fs), cluster) {
        let first = cluster_sector(info(fs), cluster);
        lemma_free_cluster_on_disk(d, first, run, needed, fs.sectors_per_cluster as nat);
        let (r, found) = free_run_cluster(d, first, run, needed, fs.sectors_per_cluster as nat);
        if !found {
            let next = fat_entry(d, info(fs), cluster);
            if next >= CLUSTER_LAST {
                if let Some(p) = alloc32(d, fs) {
                    lemma_fat_pos_in(d, fs, cluster);
                    if let Some(c) = first_free_cluster(d, info(fs), fs.root_dir_cluster as int, fs.total_clusters as int) {
                        lemma_first_free_in(d, fs, fs.root_dir_cluster as int, fs.total_clusters as int);
                        lemma_fat_pos_in(d, fs, c);
                    }
                    lemma_free_loc32(p.0.update(fat_pos(info(fs), cluster), p.1 as u8), fs, p.1, r, needed, (fuel - 1) as nat);
                }
            } else {
                lemma_free_loc32(d, fs, next, r, needed, (fuel - 1) as nat);
            }
        }
    }
}

proof fn lemma_first_free_in(d: Seq<u8>, fs: FatFileSystem, from: int, to: int)
    requires
        0 <= from,
        to <= u32::MAX,
    ensures
        first_free_cluster(d, info(fs), from, to) matches Some(c) ==> from <= c < to,
    decreases to - from,
{
    if from < to && fat_entry(d, info(fs), from as u32) != CLUSTER_FREE {
        lemma_first_free_in(d, fs, from + 1, to);
    }
}

proof fn lemma_fat_pos_in(d: Seq<u8>, fs: FatFileSystem, c: u32)
    requires
        layout_fits(info(fs), d.len() as int),
        c < fs.total_clusters,
    ensures
        0 <= fat_pos(info(fs), c) < d.len(),
{
    assert((c * 4) / 512 <= (fs.total_clusters * 4) / 512) by (nonlinear_arith)
        requires
            c < fs.total_clusters,
    ;
    assert((c * 4) % 512 < 512) by (nonlinear_arith);
}

proof fn lemma_free_loc32_found(
    d: Seq<u8>,
    fs: FatFileSystem,
    cluster: u32,
    run0: FreeRun,
    needed: nat,
    fuel: nat,
    sector_idx: nat,
    run1: FreeRun,
    j: nat,
    found: FreeRun,
)
    requires
        !(free_loc32(d, fs, cluster, run0, needed, fuel) is Stuck),
        cluster != CLUSTER_FREE && cluster < CLUSTER_LAST,
        sector_idx < fs.sectors_per_cluster,
        free_run_cluster(d, cluster_sector(info(fs), cluster), run0, needed, sector_idx) == (run1, false),
        j < 16,
        free_run_sector(
            sector_bytes(d, cluster_sector(info(fs), cluster) + sector_idx),
            (cluster_sector(info(fs), cluster) + sector_idx) as u32,
            run1,
            needed,
            j + 1,
        ) == (found, true),
    ensures
        free_loc32(d, fs, cluster, run0, needed, fuel) == Located::Found(d, cluster, found.sector, found.offset),
{
    let first = cluster_sector(info(fs), cluster);
    lemma_free_sector_stopped(sector_bytes(d, first + sector_idx), (first + sector_idx) as u32, run1, needed, j + 1, 16);
    assert(free_run_cluster(d, first, run0, needed, sector_idx + 1) == (found, true));
    lemma_free_cluster_stopped(d, first, run0, needed, sector_idx + 1, fs.sectors_per_cluster as nat);
}

/// The character `c` cut to 16 bits, or 0xFFFF past the end of a name.
pub open spec fn unit32(chars: Seq<char>, p: int) -> u16 {
    if 0 <= p < chars.len() {
        (chars[p] as u32) as u16
    } else {
        0xFFFF
    }
}

/// The order byte of entry `j` of the long name entries of a name of `n`
/// characters: 0x40 plus its place, with bit 6 set again on an entry that
/// ends exactly at the end of the name.
pub open spec fn order32(j: int, n: int) -> u8 {
    if 13 * (j + 1) == n {
        ((0x40 + j) as u8) | 0x40u8
    } else {
        (0x40 + j) as u8
    }
}

impl FatDriver {
    /// Mounts the FAT32 volume that starts at sector `start_sector` of
    /// `device` and has `sectors_count` sectors: reads its boot sector and
    /// works out its layout.
    pub fn mount(device: Disk, start_sector: u64, sectors_count: u64) -> (d: Self)
        requires
            (start_sector + 1) * SECTOR_SIZE <= device@.len(),
            mountable(sector_bytes(device@, start_sector as int)),
        ensures
            d.device@ == device@,
            d.fs == layout32(sector_bytes(device@, start_sector as int), start_sector, sectors_count),
            d.volume_id == le32(sector_bytes(device@, start_sector as int), 67),
    {
        let buffer = device.read_sector(start_sector);
        let boot_sector = Fat32BootSector::from_bytes(buffer.as_slice());
        let bytes_per_sector = boot_sector.bytes_per_sector as u32;
        let root_sectors = ((boot_sector.root_dir_entries as u32 * 32) + (bytes_per_sector - 1))
            / bytes_per_sector;
        let first_data_sector = boot_sector.reserved_sectors as u32 + (boot_sector.fat_count as u32
            * boot_sector.sectors_per_fat_large as u32);
        let total_clusters = (boot_sector.total_sectors_large - first_data_sector)
            / boot_sector.sectors_per_cluster as u32;
        proof {
            let x = bytes_per_sector;
            let y = boot_sector.sectors_per_cluster;
            assert(x * y <= 0xFFFF * 0xFF) by (nonlinear_arith)
                requires
                    x <= 0xFFFF,
                    y <= 0xFF,
            ;
        }
        FatDriver {
            volume_id: boot_sector.serial_number,
            fs: FatFileSystem {
                start_sector,
                sectors_count,
                bytes_per_sector: boot_sector.bytes_per_sector,
                root_sectors,
                sectors_per_cluster: boot_sector.sectors_per_cluster,
                cluster_size: bytes_per_sector * boot_sector.sectors_per_cluster as u32,
                first_data_sector,
                first_fat_sector: boot_sector.reserved_sectors as u32,
                root_dir_cluster: boot_sector.root_dir_start,
                total_clusters,
                root_dir_entries: boot_sector.root_dir_entries,
            },
            device,
        }
    }

    /// The cluster that follows `cluster` in its chain: its FAT entry.
    fn get_next_cluster(&self, cluster: u32) -> (next: u32)
        requires
            layout_fits(info(self.fs), self.device@.len() as int),
            cluster < self.fs.total_clusters,
        ensures
            next == fat_entry(self.device@, info(self.fs), cluster),
    {
        proof {
            assert((cluster * 4) / 512 <= (self.fs.total_clusters * 4) / 512) by (nonlinear_arith)
                requires
                    cluster < self.fs.total_clusters,
            ;
            assert((cluster * 4) % 512 + 4 <= 512) by (nonlinear_arith);
            assert((cluster * 4) / 512 * 512 + (cluster * 4) % 512 == cluster * 4) by (nonlinear_arith);
        }
        let fat_sector = self.fs.first_fat_sector + (cluster * 4) / self.fs.bytes_per_sector as u32;
        let fat_offset = (cluster * 4) % self.fs.bytes_per_sector as u32;
        let buffer = self.device.read_sector(fat_sector as u64);
        let value = read_u32(buffer.as_slice(), fat_offset as usize);
        proof {
            let d = self.device@;
            assert(le32(buffer@, fat_offset as int) == le32(d, fat_sector * 512 + fat_offset));
        }
        value & 0x0FFFFFFF
    }

    /// The entries of the directory at `dir_cluster`, each with its name, as
    /// [`dir_scan`] finds them.
    pub fn get_dir_entries(&self, dir_cluster: u32) -> (entries: Vec<VfsEntry>)
        requires
            layout_fits(info(self.fs), self.device@.len() as int),
            dir_ok(self.device@, self.fs, dir_cluster),
        ensures
            ({
                let f = dir_scan(self.device@, self.fs, dir_cluster)->0.found;
                &&& entries@.len() == f.len()
                &&& forall|k: int| 0 <= k < f.len() ==> is_node(#[trigger] entries@[k], f[k])
            }),
    {
        let ghost d = self.device@;
        let ghost fs = self.fs;
        let ghost fin = dir_scan(d, fs, dir_cluster)->0;
        let ghost c0 = dir_cluster;
        let mut entries: Vec<VfsEntry> = Vec::new();
        let mut lfn: Vec<LongDirectoryEntry> = Vec::new();
        let mut cluster = dir_cluster;
        let ghost mut st = no_scan();
        let ghost mut fuel: nat = fs.total_clusters as nat;
        while cluster != CLUSTER_FREE && cluster < CLUSTER_LAST
            invariant
                fin == dir_scan(d, fs, c0)->0,
                c0 == dir_cluster,
                d == self.device@,
                fs == self.fs,
                layout_fits(info(fs), d.len() as int),
                scan32(d, fs, cluster, st, fuel) == Some(fin),
                forall|k: int| 0 <= k < fin.found.len() ==> name_readable(#[trigger] fin.found[k].1),
                !st.ended,
                entries@.len() == st.found.len(),
                forall|k: int| 0 <= k < st.found.len() ==> is_node(#[trigger] entries@[k], st.found[k]),
                lfn@ == st.lfn,
            decreases fuel,
        {
            let sector = self.fs.first_data_sector + (cluster - 2) * self.fs.sectors_per_cluster as u32;
            let spc = self.fs.sectors_per_cluster;
            let ghost st_c = st;
            let ghost first = cluster_sector(info(fs), cluster);
            let mut i: u8 = 0;
            while i < spc
                invariant
                    fin == dir_scan(d, fs, c0)->0,
                c0 == dir_cluster,
                    d == self.device@,
                    fs == self.fs,
                    layout_fits(info(fs), d.len() as int),
                    cluster != CLUSTER_FREE && cluster < CLUSTER_LAST,
                    fuel > 0,
                    cluster_on_disk(d, info(fs), cluster),
                    scan32(d, fs, cluster, st_c, fuel) == Some(fin),
                    forall|k: int| 0 <= k < fin.found.len() ==> name_readable(#[trigger] fin.found[k].1),
                    sector == first,
                    first == cluster_sector(info(fs), cluster),
                    spc == fs.sectors_per_cluster,
                    i <= spc,
                    st == scan32_cluster(d, first, st_c, i as nat),
                    !st.ended,
                    entries@.len() == st.found.len(),
                    forall|k: int| 0 <= k < st.found.len() ==> is_node(#[trigger] entries@[k], st.found[k]),
                    lfn@ == st.lfn,
                decreases spc - i,
            {
                let buffer = self.device.read_sector(sector as u64 + i as u64);
                let sector_no = sector + i as u32;
                let ghost st_s = st;
                let mut j: u16 = 0;
                while j < 16
                    invariant
                        fin == dir_scan(d, fs, c0)->0,
                c0 == dir_cluster,
                        d == self.device@,
                        fs == self.fs,
                        cluster != CLUSTER_FREE && cluster < CLUSTER_LAST,
                        fuel > 0,
                        cluster_on_disk(d, info(fs), cluster),
                        scan32(d, fs, cluster, st_c, fuel) == Some(fin),
                        forall|k: int| 0 <= k < fin.found.len() ==> name_readable(#[trigger] fin.found[k].1),
                        first == cluster_sector(info(fs), cluster),
                        i < spc,
                        spc == fs.sectors_per_cluster,
                        st_s == scan32_cluster(d, first, st_c, i as nat),
                        !st_s.ended,
                        buffer@ == sector_bytes(d, first + i),
                        buffer@.len() == SECTOR_SIZE,
                        sector_no == first + i,
                        j <= 16,
                        st == scan32_sector(buffer@, sector_no, st_s, j as nat),
                        !st.ended,
                        entries@.len() == st.found.len(),
                        forall|k: int| 0 <= k < st.found.len() ==> is_node(#[trigger] entries@[k], st.found[k]),
                        lfn@ == st.lfn,
                    decreases 16 - j,
                {
                    let entry = DirectoryEntry::from_bytes(buffer.as_slice(), j as usize * 32);
                    proof {
                        lemma_scan_midway(d, fs, cluster, st_c, fuel, fin, i as nat, st_s, (j + 1) as nat);
                    }
                    if entry.name[0] == ENTRY_END {
                        proof {
                            st = scan32_sector(buffer@, sector_no, st_s, (j + 1) as nat);
                            assert(fin == st);
                        }
                        return entries;
                    }
                    if entry.name[0] == ENTRY_FREE || entry.name[0] == ENTRY_DELETED {
                    } else if entry.attributes == ENTRY_LONG {
                        lfn.push(LongDirectoryEntry::from_bytes(buffer.as_slice(), j as usize * 32));
                    } else {
                        proof {
                            let next = scan32_sector(buffer@, sector_no, st_s, (j + 1) as nat);
                            assert(next.found[st.found.len() as int] == fin.found[st.found.len() as int]);
                            assert(name_readable(fin.found[st.found.len() as int].1));
                        }
                        let name = VfsDirectoryEntry::parse_name(&entry, &lfn);
                        lfn.clear();
                        entries.push(VfsEntry { entry, name, sector: sector_no, offset: j as u32 + 32 });
                    }
                    proof {
                        st = scan32_sector(buffer@, sector_no, st_s, (j + 1) as nat);
                    }
                    j = j + 1;
                }
                proof {
                    st = scan32_cluster(d, first, st_c, (i + 1) as nat);
                }
                i = i + 1;
            }
            proof {
                fuel = (fuel - 1) as nat;
            }
            cluster = self.get_next_cluster(cluster);
        }
        entries
    }

    /// The entry of the directory at `cluster` whose short name matches
    /// `name` (see [`dir_find`]); `root` is not looked at.
    fn search_in_dir(&self, cluster: u32, name: &str, root: bool) -> (r: Option<VfsEntry>)
        requires
            layout_fits(info(self.fs), self.device@.len() as int),
            dir_ok(self.device@, self.fs, cluster),
        ensures
            match dir_find(self.device@, self.fs, cluster, name@) {
                Some(e) => r matches Some(v) && is_node(v, e),
                None => r is None,
            },
    {
        let entries = self.get_dir_entries(cluster);
        let ghost f = dir_scan(self.device@, self.fs, cluster)->0.found;
        let name_chars = chars_of(name);
        let mut k: usize = 0;
        while k < entries.len()
            invariant
                entries@.len() == f.len(),
                forall|q: int| 0 <= q < f.len() ==> is_node(#[trigger] entries@[q], f[q]),
                f == dir_scan(self.device@, self.fs, cluster)->0.found,
                name_chars@ == name@,
                k <= entries@.len(),
                find_short(f, name@, 0) == find_short(f, name@, k as int),
            decreases entries@.len() - k,
        {
            let short = VfsDirectoryEntry::parse_short_filename(&entries[k].entry.name);
            let short_chars = chars_of(short.as_str());
            assert(is_node(entries@[k as int], f[k as int]));
            if eq_ignore_ascii_case(&short_chars, &name_chars) {
                return Some(
                    VfsEntry {
                        entry: entries[k].entry,
                        name: entries[k].name.clone(),
                        sector: entries[k].sector,
                        offset: entries[k].offset,
                    },
                );
            }
            k = k + 1;
        }
        None
    }

    /// The entry that `path` names (see [`node_of`]).
    pub fn get_node(&self, path: &str) -> (r: Option<VfsEntry>)
        requires
            layout_fits(info(self.fs), self.device@.len() as int),
            node_ok(self.device@, self.fs, path@),
        ensures
            match node_of(self.device@, self.fs, path@) {
                Some(e) => r matches Some(v) && is_node(v, e),
                None => r is None,
            },
    {
        let parts = split_path(path);
        let ghost ps = path_parts(path@);
        proof {
            assert(parts@.len() == ps.len());
        }
        if parts.len() == 0 {
            proof {
                reveal_strlit("/");
                assert("/"@ =~= seq!['/']);
            }
            return self.search_in_dir(self.fs.root_dir_cluster, "/", true);
        }
        let mut current_cluster = self.fs.root_dir_cluster;
        let mut i: usize = 0;
        while i < parts.len()
            invariant
                layout_fits(info(self.fs), self.device@.len() as int),
                parts@.len() == ps.len(),
                ps == path_parts(path@),
                ps.len() > 0,
                forall|k: int| 0 <= k < parts@.len() ==> (#[trigger] parts@[k])@ == ps[k],
                i <= parts@.len(),
                node_walk(self.device@, self.fs, current_cluster, ps, i as int) == node_walk(
                    self.device@,
                    self.fs,
                    self.fs.root_dir_cluster,
                    ps,
                    0,
                ),
                node_walk_ok(self.device@, self.fs, current_cluster, ps, i as int),
            decreases parts@.len() - i,
        {
            let name = string_of_chars(&parts[i]);
            let node = match self.search_in_dir(current_cluster, name.as_str(), i == 0) {
                Some(n) => n,
                None => {
                    return None;
                },
            };
            let is_dir = node.entry.attributes & 0x10 != 0;
            if is_dir {
                current_cluster = node.entry.high_cluster as u32 | node.entry.low_cluster as u32;
            } else {
                return Some(node);
            }
            i = i + 1;
        }
        None
    }

    /// The size of the file that `path` names; `None` where nothing has
    /// that path or it is a directory.
    pub fn size(&self, path: &str) -> (r: Option<usize>)
        requires
            layout_fits(info(self.fs), self.device@.len() as int),
            node_ok(self.device@, self.fs, path@),
        ensures
            match node_of(self.device@, self.fs, path@) {
                Some(e) => if e.0.attributes & ATTR_DIRECTORY != 0 {
                    r is None
                } else {
                    r == Some(e.0.size as usize)
                },
                None => r is None,
            },
            r == file_size(self.device@, self.fs, path@),
    {
        let node = match self.get_node(path) {
            Some(n) => n,
            None => {
                return None;
            },
        };
        if node.entry.attributes & ATTR_DIRECTORY != 0 {
            return None;
        }
        Some(node.entry.size as usize)
    }

    /// Whether `path` names a file (see [`node_of`]).
    pub fn file_exists(&self, path: &str) -> (b: bool)
        requires
            layout_fits(info(self.fs), self.device@.len() as int),
            node_ok(self.device@, self.fs, path@),
        ensures
            b == (node_of(self.device@, self.fs, path@) matches Some(e) && e.0.attributes & 0x10 == 0),
            b == names_file(self.device@, self.fs, path@),
    {
        match self.get_node(path) {
            Some(node) => {
                let is_dir = node.entry.attributes & 0x10 != 0;
                !is_dir
            },
            None => false,
        }
    }

    /// The bytes of the file that `path` names: the clusters of the chain
    /// from its first cluster (see [`node_cluster`]).
    pub fn read_file(&self, path: &str) -> (data: Vec<u8>)
        requires
            layout_fits(info(self.fs), self.device@.len() as int),
            node_ok(self.device@, self.fs, path@),
            node_of(self.device@, self.fs, path@) matches Some(e) && file_chain(
                self.device@,
                info(self.fs),
                node_cluster(e.0),
                self.fs.total_clusters as nat,
            ) is Some,
        ensures
            data@ == clusters_bytes(
                self.device@,
                info(self.fs),
                file_chain(
                    self.device@,
                    info(self.fs),
                    node_cluster((node_of(self.device@, self.fs, path@)->0).0),
                    self.fs.total_clusters as nat,
                )->0,
            ),
    {
        let node = match self.get_node(path) {
            Some(n) => n,
            None => {
                return Vec::new();
            },
        };
        let start = node.entry.high_cluster as u32 | node.entry.low_cluster as u32;
        let ghost d = self.device@;
        let ghost fs = info(self.fs);
        let ghost full = file_chain(d, fs, start, fs.total_clusters as nat)->0;
        let ghost mut seen: Seq<u32> = Seq::empty();
        let ghost mut fuel: nat = fs.total_clusters as nat;
        let mut cluster = start;
        let mut buffer: Vec<u8> = Vec::new();
        while cluster < CLUSTER_LAST
            invariant
                d == self.device@,
                fs == info(self.fs),
                layout_fits(fs, d.len() as int),
                file_chain(d, fs, cluster, fuel) is Some,
                seen + file_chain(d, fs, cluster, fuel)->0 == full,
                buffer@ == clusters_bytes(d, fs, seen),
            decreases fuel,
        {
            let sector = self.fs.first_data_sector + (cluster - 2) * self.fs.sectors_per_cluster as u32;
            let spc = self.fs.sectors_per_cluster;
            let mut i: u8 = 0;
            while i < spc
                invariant
                    d == self.device@,
                    fs == info(self.fs),
                    spc == fs.sectors_per_cluster,
                    sector == cluster_sector(fs, cluster),
                    sector + spc <= u32::MAX,
                    (sector + spc) * SECTOR_SIZE <= d.len(),
                    i <= spc,
                    buffer@ == clusters_bytes(d, fs, seen) + d.subrange(
                        sector * SECTOR_SIZE,
                        (sector + i) * SECTOR_SIZE,
                    ),
                decreases spc - i,
            {
                let mut part = self.device.read_sector(sector as u64 + i as u64);
                proof {
                    assert(d.subrange(sector * SECTOR_SIZE, (sector + i) * SECTOR_SIZE) + part@ =~= d.subrange(
                        sector * SECTOR_SIZE,
                        (sector + i + 1) * SECTOR_SIZE,
                    ));
                }
                buffer.append(&mut part);
                i = i + 1;
            }
            proof {
                let rest = file_chain(d, fs, fat_entry(d, fs, cluster), (fuel - 1) as nat)->0;
                assert(seen.push(cluster) + rest =~= seen + (seq![cluster] + rest));
                assert(seen.push(cluster).drop_last() =~= seen);
                seen = seen.push(cluster);
                fuel = (fuel - 1) as nat;
            }
            cluster = self.get_next_cluster(cluster);
        }
        proof {
            assert(seen =~= full);
        }
        buffer
    }

    /// Writes the low byte of `next_cluster` at the start of the FAT entry
    /// of `cluster`, where the entry starts its FAT sector.
    fn set_next_cluster(&mut self, cluster: u32, next_cluster: u32)
        requires
            layout_fits(info(old(self).fs), old(self).device@.len() as int),
            cluster < old(self).fs.total_clusters,
            (cluster * 4) % 512 == 0,
        ensures
            final(self).fs == old(self).fs,
            final(self).volume_id == old(self).volume_id,
            final(self).device@ == old(self).device@.update(fat_pos(info(old(self).fs), cluster), next_cluster as u8),
    {
        proof {
            assert((cluster * 4) / 512 <= (self.fs.total_clusters * 4) / 512) by (nonlinear_arith)
                requires
                    cluster < self.fs.total_clusters,
            ;
        }
        let fat_sector = self.fs.first_fat_sector + (cluster * 4) / self.fs.bytes_per_sector as u32;
        let fat_offset = (cluster * 4) % self.fs.bytes_per_sector as u32;
        let mut buffer = self.device.read_sector(fat_sector as u64);
        buffer.set(fat_offset as usize, next_cluster as u8);
        self.device.write_sector(fat_sector as u64, &buffer);
        proof {
            assert(self.device@ =~= old(self).device@.update(fat_pos(info(old(self).fs), cluster), next_cluster as u8));
        }
    }

    /// Allocates a cluster as [`alloc32`] describes: the cluster, or 0.
    fn alloc_cluster(&mut self) -> (r: u32)
        requires
            layout_fits(info(old(self).fs), old(self).device@.len() as int),
            alloc32(old(self).device@, old(self).fs) is Some,
        ensures
            final(self).fs == old(self).fs,
            final(self).volume_id == old(self).volume_id,
            r == (alloc32(old(self).device@, old(self).fs)->0).1,
            final(self).device@ == (alloc32(old(self).device@, old(self).fs)->0).0,
    {
        let ghost d = self.device@;
        let mut cluster = self.fs.root_dir_cluster;
        while cluster < self.fs.total_clusters
            invariant
                self.fs == old(self).fs,
                self.volume_id == old(self).volume_id,
                self.device@ == d,
                d == old(self).device@,
                layout_fits(info(self.fs), d.len() as int),
                alloc32(d, self.fs) is Some,
                self.fs.root_dir_cluster <= cluster,
                first_free_cluster(d, info(self.fs), self.fs.root_dir_cluster as int, self.fs.total_clusters as int)
                    == first_free_cluster(d, info(self.fs), cluster as int, self.fs.total_clusters as int),
            decreases self.fs.total_clusters - cluster,
        {
            if self.get_next_cluster(cluster) == CLUSTER_FREE {
                self.set_next_cluster(cluster, CLUSTER_LAST);
                return cluster;
            }
            cluster = cluster + 1;
        }
        0
    }

    /// Looks for `needed` free entries in a row in the directory chain from
    /// `start_cluster`, as [`free_loc32`] describes: the cluster looked at when
    /// they were found and the sector and place of the first; zeros where
    /// the chain ended first.
    pub fn find_free_loc(&mut self, start_cluster: u32, needed: usize) -> (r: (u32, u32, u32))
        requires
            layout_fits(info(old(self).fs), old(self).device@.len() as int),
            needed > 0,
            !(free_loc32(old(self).device@, old(self).fs, start_cluster, no_run(), needed as nat, old(self).fs.total_clusters as nat) is Stuck),
        ensures
            final(self).fs == old(self).fs,
            final(self).volume_id == old(self).volume_id,
            match free_loc32(old(self).device@, old(self).fs, start_cluster, no_run(), needed as nat, old(self).fs.total_clusters as nat) {
                Located::Found(d1, c, sector, offset) => r == (c, sector, offset) && final(self).device@ == d1,
                Located::Missing(d1) => r == (0u32, 0u32, 0u32) && final(self).device@ == d1,
                Located::Stuck => false,
            },
    {
        let ghost fs = self.fs;
        let ghost len = self.device@.len();
        let ghost target = free_loc32(self.device@, fs, start_cluster, no_run(), needed as nat, fs.total_clusters as nat);
        let ghost c0 = start_cluster;
        let mut cluster = start_cluster;
        let mut sector: u32 = 0;
        let mut offset: u32 = 0;
        let mut free_count: usize = 0;
        let ghost mut fuel: nat = fs.total_clusters as nat;
        while cluster != CLUSTER_FREE && cluster < CLUSTER_LAST
            invariant
                fs == old(self).fs,
                target == free_loc32(old(self).device@, old(self).fs, c0, no_run(), needed as nat, old(self).fs.total_clusters as nat),
                c0 == start_cluster,
                self.fs == fs,
                self.volume_id == old(self).volume_id,
                self.device@.len() == len,
                layout_fits(info(fs), len as int),
                free_count < needed,
                !(target is Stuck),
                free_loc32(self.device@, fs, cluster, FreeRun { count: free_count as nat, sector, offset }, needed as nat, fuel)
                    == target,
            decreases fuel,
        {
            let first_sector = self.fs.first_data_sector + (cluster - 2) * self.fs.sectors_per_cluster as u32;
            let spc = self.fs.sectors_per_cluster;
            let per_sector = self.fs.bytes_per_sector / 32;
            let ghost d0 = self.device@;
            let ghost run0 = FreeRun { count: free_count as nat, sector, offset };
            let mut sector_idx: u8 = 0;
            while sector_idx < spc
                invariant
                    fs == old(self).fs,
                    target == free_loc32(old(self).device@, old(self).fs, c0, no_run(), needed as nat, old(self).fs.total_clusters as nat),
                c0 == start_cluster,
                    cluster != CLUSTER_FREE && cluster < CLUSTER_LAST,
                    !(target is Stuck),
                    self.fs == fs,
                    self.volume_id == old(self).volume_id,
                    self.device@ == d0,
                    free_loc32(d0, fs, cluster, run0, needed as nat, fuel) == target,
                    d0.len() == len,
                    layout_fits(info(fs), len as int),
                    per_sector == 16,
                    spc == fs.sectors_per_cluster,
                    first_sector == cluster_sector(info(fs), cluster),
                    first_sector + spc <= u32::MAX,
                    (first_sector + spc) * SECTOR_SIZE <= len,
                    sector_idx <= spc,
                    free_count < needed,
                    free_run_cluster(d0, first_sector as int, run0, needed as nat, sector_idx as nat) == (
                        FreeRun { count: free_count as nat, sector, offset },
                        false,
                    ),
                decreases spc - sector_idx,
            {
                let buffer = self.device.read_sector(first_sector as u64 + sector_idx as u64);
                let sector_number = first_sector + sector_idx as u32;
                let ghost run1 = FreeRun { count: free_count as nat, sector, offset };
                let mut j: u16 = 0;
                while j < per_sector
                    invariant
                        fs == old(self).fs,
                        target == free_loc32(old(self).device@, old(self).fs, c0, no_run(), needed as nat, old(self).fs.total_clusters as nat),
                c0 == start_cluster,
                        cluster != CLUSTER_FREE && cluster < CLUSTER_LAST,
                        !(target is Stuck),
                        self.fs == fs,
                        self.volume_id == old(self).volume_id,
                        self.device@ == d0,
                        sector_idx < spc,
                        spc == fs.sectors_per_cluster,
                        buffer@ == sector_bytes(d0, first_sector + sector_idx),
                        sector_number == first_sector + sector_idx,
                        first_sector == cluster_sector(info(fs), cluster),
                        free_run_cluster(d0, first_sector as int, run0, needed as nat, sector_idx as nat) == (run1, false),
                        free_loc32(d0, fs, cluster, run0, needed as nat, fuel) == target,
                        buffer@.len() == SECTOR_SIZE,
                        per_sector == 16,
                        j <= per_sector,
                        free_count < needed,
                        free_run_sector(buffer@, sector_number, run1, needed as nat, j as nat) == (
                            FreeRun { count: free_count as nat, sector, offset },
                            false,
                        ),
                    decreases per_sector - j,
                {
                    let entry = DirectoryEntry::from_bytes(buffer.as_slice(), j as usize * 32);
                    if entry.name[0] == ENTRY_END || entry.name[0] == ENTRY_FREE {
                        if free_count == 0 {
                            sector = sector_number;
                            offset = j as u32 * 32;
                        }
                        free_count = free_count + 1;
                        if free_count == needed {
                            proof {
                                let found = FreeRun { count: free_count as nat, sector, offset };
                                assert(free_run_sector(buffer@, sector_number, run1, needed as nat, (j + 1) as nat) == (found, true));
                                lemma_free_loc32_found(d0, fs, cluster, run0, needed as nat, fuel, sector_idx as nat, run1, j as nat, found);
                            }
                            return (cluster, sector, offset);
                        }
                    } else {
                        free_count = 0;
                        sector = 0;
                        offset = 0;
                    }
                    j = j + 1;
                }
                sector_idx = sector_idx + 1;
            }
            let next_cluster = self.get_next_cluster(cluster);
            proof {
                lemma_fat_pos_in(d0, fs, cluster);
                if let Some(c) = first_free_cluster(d0, info(fs), fs.root_dir_cluster as int, fs.total_clusters as int) {
                    lemma_first_free_in(d0, fs, fs.root_dir_cluster as int, fs.total_clusters as int);
                    lemma_fat_pos_in(d0, fs, c);
                }
                fuel = (fuel - 1) as nat;
            }
            if next_cluster >= CLUSTER_LAST {
                let new_cluster = self.alloc_cluster();
                self.set_next_cluster(cluster, new_cluster);
                cluster = new_cluster;
            } else {
                cluster = next_cluster;
            }
        }
        (0, 0, 0)
    }

    /// Creates a short entry named `name` in the directory at
    /// `parent_cluster`, pointing at `cluster`, with `attributes`, as
    /// [`entry32`] describes.
    pub fn create_entry(&mut self, parent_cluster: u32, name: &str, attributes: u8, cluster: u32)
        requires
            layout_fits(info(old(self).fs), old(self).device@.len() as int),
            entry32(old(self).device@, old(self).fs, parent_cluster, name@, attributes, cluster) is Some,
        ensures
            final(self).fs == old(self).fs,
            final(self).volume_id == old(self).volume_id,
            final(self).device@ == entry32(old(self).device@, old(self).fs, parent_cluster, name@, attributes, cluster)->0,
    {
        if name.is_empty() {
            return;
        }
        let ghost d = self.device@;
        proof {
            lemma_free_loc32(d, self.fs, parent_cluster, no_run(), 1, self.fs.total_clusters as nat);
        }
        let (mut entry_cluster, mut entry_sector, mut sector_offset) = self.find_free_loc(parent_cluster, 1);
        if entry_cluster == 0 {
            return;
        }
        let short_name = self.create_short_filename(name);
        let mut buffer = self.device.read_sector(entry_sector as u64);
        if sector_offset >= self.fs.bytes_per_sector as u32 {
            sector_offset = sector_offset % self.fs.bytes_per_sector as u32;
            entry_sector = entry_sector + 1;
            if entry_sector >= self.fs.sectors_per_cluster as u32 {
                let next_cluster = self.get_next_cluster(entry_cluster);
                if next_cluster >= CLUSTER_LAST {
                    let new_cluster = self.alloc_cluster();
                    self.set_next_cluster(entry_cluster, new_cluster);
                    entry_cluster = new_cluster;
                } else {
                    entry_cluster = next_cluster;
                }
            }
            entry_sector = self.fs.first_data_sector + (entry_cluster - 2) * self.fs.sectors_per_cluster as u32
                + entry_sector;
            buffer = self.device.read_sector(entry_sector as u64);
        }
        let entry = DirectoryEntry {
            name: short_name,
            attributes,
            reserved: 0,
            creation_time_tenths: 0,
            creation_time: 0,
            creation_date: 0,
            access_date: 0,
            high_cluster: (cluster >> 16) as u16,
            modification_time: 0,
            modification_date: 0,
            low_cluster: (cluster & 0xFFFF) as u16,
            size: 0,
        };
        let bytes = entry.to_bytes();
        proof {
            assert(bytes@ =~= plain_entry_bytes(short_name@, attributes, 0, 0, 0, cluster));
        }
        put_entry(&mut buffer, sector_offset as usize, &bytes);
        self.device.write_sector(entry_sector as u64, &buffer);
    }

    /// Creates a file at `path` in the root directory when `create` is set
    /// and no file has that path (see [`entry32`]): its entry points at the
    /// root directory's cluster. The data in `buffer` is not written.
    pub fn write_file(&mut self, path: &str, buffer: &[u8], create: bool)
        requires
            layout_fits(info(old(self).fs), old(self).device@.len() as int),
            node_ok(old(self).device@, old(self).fs, path@),
            create && !(node_of(old(self).device@, old(self).fs, path@) matches Some(e) && e.0.attributes & 0x10 == 0)
                ==> entry32(old(self).device@, old(self).fs, old(self).fs.root_dir_cluster, path@, 0, old(self).fs.root_dir_cluster) is Some,
        ensures
            final(self).fs == old(self).fs,
            final(self).volume_id == old(self).volume_id,
            final(self).device@ == if create && !(node_of(old(self).device@, old(self).fs, path@) matches Some(e)
                && e.0.attributes & 0x10 == 0) {
                entry32(old(self).device@, old(self).fs, old(self).fs.root_dir_cluster, path@, 0, old(self).fs.root_dir_cluster)->0
            } else {
                old(self).device@
            },
    {
        let file_exists = self.file_exists(path);
        if create && !file_exists {
            let root = self.fs.root_dir_cluster;
            self.create_entry(root, path, 0, root);
        }
    }

    /// The 8.3 short name of `name` (see [`short_name_of`]).
    pub fn create_short_filename(&self, name: &str) -> (short_name: [u8; 11])
        ensures
            short_name@ == short_name_of(name@),
    {
        short_filename_of(name)
    }

    /// The long name entries of `name`, in the order of the name: each holds
    /// 13 characters cut to 16 bits, 0xFFFF past the end of the name, and
    /// the order byte of [`order32`]; the other fields are zero. None for an
    /// empty name.
    pub fn create_lfn_entries(&self, name: &str) -> (entries: Vec<LongDirectoryEntry>)
        requires
            name@.len() <= 13 * 191,
            name@.len() != 13 * 128,
        ensures
            entries@.len() == (name@.len() + 12) / 13,
            forall|j: int|
                #![trigger entries@[j]]
                0 <= j < entries@.len() ==> {
                    let e = entries@[j];
                    &&& e.order == order32(j, name@.len() as int)
                    &&& e.attributes == 0 && e.reserved1 == 0 && e.checksum == 0 && e.reserved2 == 0
                    &&& forall|i: int| 0 <= i < 5 ==> #[trigger] e.name1@[i] == unit32(name@, 13 * j + i)
                    &&& forall|i: int| 0 <= i < 6 ==> #[trigger] e.name2@[i] == unit32(name@, 13 * j + 5 + i)
                    &&& forall|i: int| 0 <= i < 2 ==> #[trigger] e.name3@[i] == unit32(name@, 13 * j + 11 + i)
                },
    {
        let mut entries: Vec<LongDirectoryEntry> = Vec::new();
        let name_chars = chars_of(name);
        let n = name_chars.len();
        let mut idx: usize = 0;
        let mut entry = LongDirectoryEntry::default();
        entry.order = 0x40;
        while idx < n
            invariant
                name_chars@ == name@,
                n == name@.len(),
                n <= 13 * 191,
                n != 13 * 128,
                idx == 13 * entries@.len(),
                entries@.len() <= (n + 12) / 13,
                idx < n + 13,
                idx < n ==> entry.order == 0x40 + entries@.len(),
                entry.attributes == 0 && entry.reserved1 == 0 && entry.checksum == 0 && entry.reserved2 == 0,
                forall|j: int|
                    #![trigger entries@[j]]
                    0 <= j < entries@.len() ==> {
                        let e = entries@[j];
                        &&& e.order == order32(j, n as int)
                        &&& e.attributes == 0 && e.reserved1 == 0 && e.checksum == 0 && e.reserved2 == 0
                        &&& forall|i: int| 0 <= i < 5 ==> #[trigger] e.name1@[i] == unit32(name@, 13 * j + i)
                        &&& forall|i: int| 0 <= i < 6 ==> #[trigger] e.name2@[i] == unit32(name@, 13 * j + 5 + i)
                        &&& forall|i: int| 0 <= i < 2 ==> #[trigger] e.name3@[i] == unit32(name@, 13 * j + 11 + i)
                    },
            decreases n + 13 - idx,
        {
            let ghost j = entries@.len() as int;
            let start = idx;
            let mut i: usize = 0;
            while i < 5
                invariant
                    i <= 5,
                    idx == start + i,
                    name_chars@ == name@,
                    n == name@.len(),
                    n <= 13 * 191,
                    forall|k: int| 0 <= k < i ==> #[trigger] entry.name1@[k] == unit32(name@, start + k),
                    entry.order == 0x40 + j,
                    entry.attributes == 0 && entry.reserved1 == 0 && entry.checksum == 0 && entry.reserved2 == 0,
                    start < n + 13,
                decreases 5 - i,
            {
                entry.name1[i] = if idx < n { name_chars[idx] as u32 as u16 } else { 0xFFFF };
                idx = idx + 1;
                i = i + 1;
            }
            let mut i: usize = 0;
            while i < 6
                invariant
                    i <= 6,
                    idx == start + 5 + i,
                    name_chars@ == name@,
                    n == name@.len(),
                    n <= 13 * 191,
                    forall|k: int| 0 <= k < 5 ==> #[trigger] entry.name1@[k] == unit32(name@, start + k),
                    forall|k: int| 0 <= k < i ==> #[trigger] entry.name2@[k] == unit32(name@, start + 5 + k),
                    entry.order == 0x40 + j,
                    entry.attributes == 0 && entry.reserved1 == 0 && entry.checksum == 0 && entry.reserved2 == 0,
                    start < n + 13,
                decreases 6 - i,
            {
                entry.name2[i] = if idx < n { name_chars[idx] as u32 as u16 } else { 0xFFFF };
                idx = idx + 1;
                i = i + 1;
            }
            let mut i: usize = 0;
            while i < 2
                invariant
                    i <= 2,
                    idx == start + 11 + i,
                    name_chars@ == name@,
                    n == name@.len(),
                    n <= 13 * 191,
                    forall|k: int| 0 <= k < 5 ==> #[trigger] entry.name1@[k] == unit32(name@, start + k),
                    forall|k: int| 0 <= k < 6 ==> #[trigger] entry.name2@[k] == unit32(name@, start + 5 + k),
                    forall|k: int| 0 <= k < i ==> #[trigger] entry.name3@[k] == unit32(name@, start + 11 + k),
                    entry.order == 0x40 + j,
                    entry.attributes == 0 && entry.reserved1 == 0 && entry.checksum == 0 && entry.reserved2 == 0,
                    start < n + 13,
                decreases 2 - i,
            {
                entry.name3[i] = if idx < n { name_chars[idx] as u32 as u16 } else { 0xFFFF };
                idx = idx + 1;
                i = i + 1;
            }
            if idx == n {
                entry.order = entry.order | 0x40;
            }
            entries.push(entry);
            proof {
                assert(entries@[j] == entry);
                assert(j < (n + 12) / 13) by (nonlinear_arith)
                    requires
                        13 * j < n,
                ;
                assert(j <= 190);
                let o = (0x40 + j) as u8;
                if idx == n {
                    assert(j != 127);
                    assert(o | 0x40u8 < 0xFF) by (bit_vector)
                        requires
                            o != 0xBF,
                            o != 0xFF,
                    ;
                }
            }
            entry.order = entry.order + 1;
        }
        entries
    }
}

/// Copies the 32 bytes `b` into `buf` from place `off` on.
fn put_entry(buf: &mut Vec<u8>, off: usize, b: &Vec<u8>)
    requires
        off + b@.len() <= old(buf)@.len(),
    ensures
        final(buf)@ == with_bytes(old(buf)@, off as int, b@),
{
    let n = b.len();
    let total = buf.len();
    let mut i: usize = 0;
    while i < n
        invariant
            n == b@.len(),
            total == buf@.len(),
            off + n <= buf@.len(),
            buf@.len() == old(buf)@.len(),
            i <= n,
            forall|j: int|
                0 <= j < buf@.len() ==> #[trigger] buf@[j] == if off <= j < off + i {
                    b@[j - off]
                } else {
                    old(buf)@[j]
                },
        decreases n - i,
    {
        buf.set(off + i, b[i]);
        i = i + 1;
    }
    assert(buf@ =~= with_bytes(old(buf)@, off as int, b@));
}

} // verus!
