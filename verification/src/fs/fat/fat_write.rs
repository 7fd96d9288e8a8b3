use vstd::prelude::*;
use vstd::string::StringSliceAdditionalSpecFns;
use crate::fs::disk::{Disk, SECTOR_SIZE};
use crate::fs::fat::dir_entry::{dot_name, entry_bytes, u16_bytes, DirectoryEntry};
use crate::fs::fat::long_dir_entry::{create_lfn_entries, is_lfn_entry, lemma_lfn_bytes, lfn_bytes_of, utf16_of};
use crate::fs::fat::{calculate_checksum, checksum_upto, create_short_filename, lemma_short_name_index, short_name_of};
use crate::fs::fat::fat_driver::{
    cluster_sector, entry_cluster, fat_entry, fat_pos, first_free_cluster, layout_fits, lemma_fat_entry_write,
    lemma_next_link_len, lemma_with_u32_len, next_link, sector_bytes, with_fat_entry, FatDriver, FileSystemInfo, ATTR_DIRECTORY,
    CLUSTER_FREE, CLUSTER_LAST, ENTRY_END, ENTRY_FREE,
};
use crate::fs::vfs_dir_entry::VfsDirectoryEntry;

verus! {

/// `d` with the bytes from `pos` on replaced by those of `b`.
pub open spec fn with_bytes(d: Seq<u8>, pos: int, b: Seq<u8>) -> Seq<u8> {
    d.subrange(0, pos) + b + d.subrange(pos + b.len(), d.len() as int)
}

/// `n` zero bytes.
pub open spec fn zeros(n: nat) -> Seq<u8> {
    Seq::new(n, |i: int| 0u8)
}

/// Writing `a` at `pos` and then `b` right after it writes `a + b` at `pos`.
proof fn lemma_with_bytes_extend(d: Seq<u8>, pos: int, a: Seq<u8>, b: Seq<u8>)
    requires
        0 <= pos,
        pos + a.len() + b.len() <= d.len(),
    ensures
        with_bytes(with_bytes(d, pos, a), pos + a.len(), b) == with_bytes(d, pos, a + b),
        with_bytes(d, pos, a).len() == d.len(),
{
    assert(with_bytes(with_bytes(d, pos, a), pos + a.len(), b) =~= with_bytes(d, pos, a + b));
}

/// Reading a sector gives back what was written into it, and writing a
/// sector leaves the other sectors as they were.
pub proof fn lemma_sector_write_read(d: Seq<u8>, lba: int, buf: Seq<u8>, other: int)
    requires
        0 <= lba,
        (lba + 1) * SECTOR_SIZE <= d.len(),
        buf.len() == SECTOR_SIZE,
        0 <= other,
        (other + 1) * SECTOR_SIZE <= d.len(),
    ensures
        sector_bytes(with_bytes(d, lba * SECTOR_SIZE, buf), lba) == buf,
        other != lba ==> sector_bytes(with_bytes(d, lba * SECTOR_SIZE, buf), other) == sector_bytes(d, other),
{
    let w = with_bytes(d, lba * SECTOR_SIZE, buf);
    assert(sector_bytes(w, lba) =~= buf);
    if other != lba {
        if other < lba {
            assert(other * SECTOR_SIZE + SECTOR_SIZE <= lba * SECTOR_SIZE);
        } else {
            assert(lba * SECTOR_SIZE + SECTOR_SIZE <= other * SECTOR_SIZE);
        }
        assert(sector_bytes(w, other) =~= sector_bytes(d, other));
    }
}

/// Whether the sectors of `cluster` lie on the disk `d`, their numbers fit
/// in 32 bits, and the cluster has a FAT entry.
pub open spec fn cluster_on_disk(d: Seq<u8>, fs: FileSystemInfo, cluster: u32) -> bool {
    &&& 2 <= cluster < fs.total_clusters
    &&& cluster_sector(fs, cluster) + fs.sectors_per_cluster <= u32::MAX
    &&& (cluster_sector(fs, cluster) + fs.sectors_per_cluster) * SECTOR_SIZE <= d.len()
}

/// The clusters of the chain from `cluster` as a file is read: followed
/// through the FAT until an end-of-chain value, when that takes at most
/// `fuel` steps through clusters that lie on the disk.
pub open spec fn file_chain(d: Seq<u8>, fs: FileSystemInfo, cluster: u32, fuel: nat) -> Option<Seq<u32>>
    decreases fuel,
{
    if cluster >= CLUSTER_LAST {
        Some(Seq::empty())
    } else if fuel == 0 || !cluster_on_disk(d, fs, cluster) {
        None
    } else {
        match file_chain(d, fs, fat_entry(d, fs, cluster), (fuel - 1) as nat) {
            Some(rest) => Some(seq![cluster] + rest),
            None => None,
        }
    }
}

/// The bytes of the clusters `clusters`, one after the other.
pub open spec fn clusters_bytes(d: Seq<u8>, fs: FileSystemInfo, clusters: Seq<u32>) -> Seq<u8>
    decreases clusters.len(),
{
    if clusters.len() == 0 {
        Seq::empty()
    } else {
        let first = cluster_sector(fs, clusters.last());
        clusters_bytes(d, fs, clusters.drop_last()) + d.subrange(
            first * SECTOR_SIZE,
            (first + fs.sectors_per_cluster) * SECTOR_SIZE,
        )
    }
}

/// The chain end that [`FatDriver::write_file`] writes after the last
/// cluster of a file.
pub const CHAIN_END: u32 = 0x0FFFFFFF;

/// What writing the data of a file into the first `n` sectors of a cluster
/// does, from sector `first` on, when `w` of its `size` bytes are written:
/// each sector takes up to a sector of the bytes that are left, its rest
/// kept, and the writing stops after the sector where the last byte went.
/// The disk, the bytes written, and whether it stopped.
pub open spec fn sectors_written(d: Seq<u8>, first: int, data: Seq<u8>, size: nat, w: nat, n: nat) -> (
    Seq<u8>,
    nat,
    bool,
)
    decreases n,
{
    if n == 0 {
        (d, w, false)
    } else {
        let (d1, w1, stop) = sectors_written(d, first, data, size, w, (n - 1) as nat);
        if stop {
            (d1, w1, true)
        } else {
            let k: nat = if size - w1 < SECTOR_SIZE { (size - w1) as nat } else { SECTOR_SIZE as nat };
            (
                with_bytes(d1, (first + n - 1) * SECTOR_SIZE, data.subrange(w1 as int, (w1 + k) as int)),
                w1 + k,
                w1 + k >= size,
            )
        }
    }
}

/// What writing `k` more clusters of a file does, from `cluster` on, when
/// `w` of its `size` bytes are written: the sectors of the cluster are
/// written; while bytes are left, the chain is followed to the next
/// cluster, and where the FAT marks its end with [`CHAIN_END`] a new
/// cluster is allocated and linked. The disk and the last cluster written;
/// `None` where a cluster is not on the disk or none can be allocated.
pub open spec fn file_written(
    d: Seq<u8>,
    fs: FileSystemInfo,
    cluster: u32,
    data: Seq<u8>,
    size: nat,
    w: nat,
    k: nat,
) -> Option<(Seq<u8>, u32)>
    decreases k,
{
    if k == 0 {
        Some((d, cluster))
    } else if !cluster_on_disk(d, fs, cluster) {
        None
    } else {
        let (d1, w1, stop) = sectors_written(
            d,
            cluster_sector(fs, cluster),
            data,
            size,
            w,
            fs.sectors_per_cluster as nat,
        );
        if w1 < size {
            let next = fat_entry(d1, fs, cluster);
            if next == CHAIN_END {
                match next_link(d1, fs, cluster) {
                    Some(p) => file_written(p.0, fs, p.1, data, size, w1, (k - 1) as nat),
                    None => None,
                }
            } else {
                file_written(d1, fs, next, data, size, w1, (k - 1) as nat)
            }
        } else {
            file_written(d1, fs, cluster, data, size, w1, (k - 1) as nat)
        }
    }
}

/// The number of clusters of `cluster_size` bytes that `size` bytes take,
/// as [`FatDriver::write_file`] counts them in 32 bits.
pub open spec fn clusters_needed(size: usize, cluster_size: u32) -> nat {
    (((size as u32) + cluster_size - 1) / (cluster_size as int)) as nat
}

proof fn lemma_sectors_written(d: Seq<u8>, first: int, data: Seq<u8>, size: nat, w: nat, n: nat)
    requires
        0 <= first,
        (first + n) * SECTOR_SIZE <= d.len(),
        w <= size <= data.len(),
    ensures
        ({
            let (d1, w1, stop) = sectors_written(d, first, data, size, w, n);
            &&& d1.len() == d.len()
            &&& w <= w1 <= size
            &&& stop ==> w1 >= size
        }),
    decreases n,
{
    if n > 0 {
        lemma_sectors_written(d, first, data, size, w, (n - 1) as nat);
        assert((first + n - 1) * SECTOR_SIZE + SECTOR_SIZE == (first + n) * SECTOR_SIZE);
    }
}

proof fn lemma_sectors_stopped(d: Seq<u8>, first: int, data: Seq<u8>, size: nat, w: nat, m: nat, n: nat)
    requires
        m <= n,
        sectors_written(d, first, data, size, w, m).2,
    ensures
        sectors_written(d, first, data, size, w, n) == sectors_written(d, first, data, size, w, m),
    decreases n - m,
{
    if m < n {
        lemma_sectors_stopped(d, first, data, size, w, m, (n - 1) as nat);
    }
}

proof fn lemma_file_written_len(
    d: Seq<u8>,
    fs: FileSystemInfo,
    cluster: u32,
    data: Seq<u8>,
    size: nat,
    w: nat,
    k: nat,
)
    requires
        layout_fits(fs, d.len() as int),
        w <= size <= data.len(),
    ensures
        file_written(d, fs, cluster, data, size, w, k) matches Some(p) ==> p.0.len() == d.len(),
    decreases k,
{
    if k > 0 && cluster_on_disk(d, fs, cluster) {
        let first = cluster_sector(fs, cluster);
        lemma_sectors_written(d, first, data, size, w, fs.sectors_per_cluster as nat);
        let (d1, w1, stop) = sectors_written(d, first, data, size, w, fs.sectors_per_cluster as nat);
        if w1 < size {
            let next = fat_entry(d1, fs, cluster);
            if next == CHAIN_END {
                lemma_next_link_len(d1, fs, cluster);
                if let Some(p) = next_link(d1, fs, cluster) {
                    lemma_file_written_len(p.0, fs, p.1, data, size, w1, (k - 1) as nat);
                }
            } else {
                lemma_file_written_len(d1, fs, next, data, size, w1, (k - 1) as nat);
            }
        } else {
            lemma_file_written_len(d1, fs, cluster, data, size, w1, (k - 1) as nat);
        }
    }
}

/// A run of free entries met while looking for room in a directory: how
/// many, and the sector and place of the first (zeros with none).
pub struct FreeRun {
    pub count: nat,
    pub sector: u32,
    pub offset: u32,
}

/// The empty run.
pub open spec fn no_run() -> FreeRun {
    FreeRun { count: 0, sector: 0, offset: 0 }
}

/// The run after looking at the first `n` entries of the directory sector
/// `buf`, numbered `sector`, from `run`: a free entry (its name starts with
/// [`ENTRY_END`] or [`ENTRY_FREE`]) adds to the run, another ends it; and
/// whether the run reached `required` entries, where the looking stopped.
pub open spec fn free_run_sector(buf: Seq<u8>, sector: u32, run: FreeRun, required: nat, n: nat) -> (
    FreeRun,
    bool,
)
    decreases n,
{
    if n == 0 {
        (run, false)
    } else {
        let (r, found) = free_run_sector(buf, sector, run, required, (n - 1) as nat);
        if found {
            (r, true)
        } else {
            let i = n - 1;
            if buf[i * 32] == ENTRY_END || buf[i * 32] == ENTRY_FREE {
                let r1 = if r.count == 0 {
                    FreeRun { count: 1, sector, offset: (i * 32) as u32 }
                } else {
                    FreeRun { count: r.count + 1, ..r }
                };
                (r1, r1.count == required)
            } else {
                (no_run(), false)
            }
        }
    }
}

/// The run after looking at the first `n` sectors of the cluster whose
/// first sector is `first`, 16 entries each, and whether it was found.
pub open spec fn free_run_cluster(d: Seq<u8>, first: int, run: FreeRun, required: nat, n: nat) -> (
    FreeRun,
    bool,
)
    decreases n,
{
    if n == 0 {
        (run, false)
    } else {
        let (r, found) = free_run_cluster(d, first, run, required, (n - 1) as nat);
        if found {
            (r, true)
        } else {
            free_run_sector(sector_bytes(d, first + n - 1), (first + n - 1) as u32, r, required, 16)
        }
    }
}

/// What looking for room in a directory ends with.
pub enum Located {
    /// A run of free entries was found: the disk then, the cluster looked
    /// at then, and the sector and place of the run's first entry.
    Found(Seq<u8>, u32, u32, u32),
    /// The chain led to a free cluster or its end: the disk then.
    Missing(Seq<u8>),
    /// A cluster met is not on the disk, the chain loops, or no cluster can
    /// be allocated.
    Stuck,
}

/// Looking for `required` free entries in a row in the directory chain from
/// `cluster` on, from `run`: cluster by cluster, and past the end of the
/// chain into clusters allocated and linked on the way.
pub open spec fn located(d: Seq<u8>, fs: FileSystemInfo, cluster: u32, run: FreeRun, required: nat, fuel: nat) -> Located
    decreases fuel,
{
    if !(cluster != CLUSTER_FREE && cluster < CLUSTER_LAST) {
        Located::Missing(d)
    } else if fuel == 0 || !cluster_on_disk(d, fs, cluster) {
        Located::Stuck
    } else {
        let (r, found) = free_run_cluster(
            d,
            cluster_sector(fs, cluster),
            run,
            required,
            fs.sectors_per_cluster as nat,
        );
        if found {
            Located::Found(d, cluster, r.sector, r.offset)
        } else {
            match next_link(d, fs, cluster) {
                Some(p) => located(p.0, fs, p.1, r, required, (fuel - 1) as nat),
                None => Located::Stuck,
            }
        }
    }
}

/// Once a sector's run reached the entries required, looking further
/// changes nothing.
pub proof fn lemma_free_sector_stopped(buf: Seq<u8>, sector: u32, run: FreeRun, required: nat, m: nat, n: nat)
    requires
        m <= n,
        free_run_sector(buf, sector, run, required, m).1,
    ensures
        free_run_sector(buf, sector, run, required, n) == free_run_sector(buf, sector, run, required, m),
    decreases n - m,
{
    if m < n {
        lemma_free_sector_stopped(buf, sector, run, required, m, (n - 1) as nat);
    }
}

/// Once a cluster's run reached the entries required, looking further
/// changes nothing.
pub proof fn lemma_free_cluster_stopped(d: Seq<u8>, first: int, run: FreeRun, required: nat, m: nat, n: nat)
    requires
        m <= n,
        free_run_cluster(d, first, run, required, m).1,
    ensures
        free_run_cluster(d, first, run, required, n) == free_run_cluster(d, first, run, required, m),
    decreases n - m,
{
    if m < n {
        lemma_free_cluster_stopped(d, first, run, required, m, (n - 1) as nat);
    }
}

proof fn lemma_located(d: Seq<u8>, fs: FileSystemInfo, cluster: u32, run: FreeRun, required: nat, fuel: nat)
    requires
        layout_fits(fs, d.len() as int),
    ensures
        located(d, fs, cluster, run, required, fuel) matches Located::Found(d1, c, s, o) ==> d1.len()
            == d.len() && cluster_on_disk(d1, fs, c),
        located(d, fs, cluster, run, required, fuel) matches Located::Missing(d1) ==> d1.len() == d.len(),
    decreases fuel,
{
    if cluster != CLUSTER_FREE && cluster < CLUSTER_LAST && fuel > 0 && cluster_on_disk(d, fs, cluster) {
        lemma_next_link_len(d, fs, cluster);
        if let Some(p) = next_link(d, fs, cluster) {
            lemma_located(p.0, fs, p.1, free_run_cluster(
                d,
                cluster_sector(fs, cluster),
                run,
                required,
                fs.sectors_per_cluster as nat,
            ).0, required, (fuel - 1) as nat);
        }
    }
}

proof fn lemma_located_found(
    d: Seq<u8>,
    fs: FileSystemInfo,
    cluster: u32,
    run0: FreeRun,
    required: nat,
    fuel: nat,
    sector_idx: nat,
    run1: FreeRun,
    entry_idx: nat,
    found: FreeRun,
)
    requires
        !(located(d, fs, cluster, run0, required, fuel) is Stuck),
        cluster != CLUSTER_FREE && cluster < CLUSTER_LAST,
        sector_idx < fs.sectors_per_cluster,
        free_run_cluster(d, cluster_sector(fs, cluster), run0, required, sector_idx) == (run1, false),
        entry_idx < 16,
        free_run_sector(
            sector_bytes(d, cluster_sector(fs, cluster) + sector_idx),
            (cluster_sector(fs, cluster) + sector_idx) as u32,
            run1,
            required,
            entry_idx + 1,
        ) == (found, true),
    ensures
        located(d, fs, cluster, run0, required, fuel) == Located::Found(d, cluster, found.sector, found.offset),
{
    let first = cluster_sector(fs, cluster);
    lemma_free_sector_stopped(sector_bytes(d, first + sector_idx), (first + sector_idx) as u32, run1, required, entry_idx + 1, 16);
    assert(free_run_cluster(d, first, run0, required, sector_idx + 1) == (found, true));
    lemma_free_cluster_stopped(d, first, run0, required, sector_idx + 1, fs.sectors_per_cluster as nat);
}

/// The 32 bytes on disk of an entry named `name` (11 bytes) with the
/// attributes, creation tenths, time and date and first cluster given, and
/// the other fields zero.
pub open spec fn plain_entry_bytes(name: Seq<u8>, attributes: u8, tenths: u8, time: u16, date: u16, cluster: u32) -> Seq<u8> {
    name + seq![attributes, 0u8, tenths] + u16_bytes(time) + u16_bytes(date) + u16_bytes(0) + u16_bytes(
        (cluster >> 16u32) as u16,
    ) + u16_bytes(0) + u16_bytes(0) + u16_bytes((cluster & 0xFFFF) as u16) + u16_bytes(0) + u16_bytes(0)
}

/// Where the writing of the entries of a new name stands: the disk, the
/// sector held in memory, its cluster and number, and the place in it.
pub struct EntryCursor {
    pub disk: Seq<u8>,
    pub buf: Seq<u8>,
    pub cluster: u32,
    pub sector: u32,
    pub offset: u32,
}

/// The outcome of writing entries of a new name.
pub enum Step {
    /// Written so far: where the writing stands.
    Next(EntryCursor),
    /// No cluster could be allocated: the disk then.
    Failed(Seq<u8>),
    /// A place or cluster met is not on the disk.
    Stuck,
}

/// Whether a run's first entry lies within a sector of a disk of `len`
/// bytes, with room for an entry after it.
pub open spec fn run_on_disk(run: FreeRun, len: int) -> bool {
    &&& run.offset + 32 <= SECTOR_SIZE
    &&& (run.sector + 1) * SECTOR_SIZE <= len
}

/// Looking at the entries of a sector on the disk keeps the run on it.
pub proof fn lemma_free_sector_on_disk(buf: Seq<u8>, sector: u32, run: FreeRun, required: nat, n: nat, len: int)
    requires
        run_on_disk(run, len),
        (sector + 1) * SECTOR_SIZE <= len,
        n <= 16,
    ensures
        run_on_disk(free_run_sector(buf, sector, run, required, n).0, len),
    decreases n,
{
    if n > 0 {
        lemma_free_sector_on_disk(buf, sector, run, required, (n - 1) as nat, len);
    }
}

/// Looking at the sectors of a cluster on the disk keeps the run on it.
pub proof fn lemma_free_cluster_on_disk(d: Seq<u8>, first: int, run: FreeRun, required: nat, n: nat)
    requires
        run_on_disk(run, d.len() as int),
        0 <= first,
        first + n <= u32::MAX,
        (first + n) * SECTOR_SIZE <= d.len(),
    ensures
        run_on_disk(free_run_cluster(d, first, run, required, n).0, d.len() as int),
    decreases n,
{
    if n > 0 {
        lemma_free_cluster_on_disk(d, first, run, required, (n - 1) as nat);
        let prev = free_run_cluster(d, first, run, required, (n - 1) as nat);
        if !prev.1 {
            lemma_free_sector_on_disk(
                sector_bytes(d, first + n - 1),
                (first + n - 1) as u32,
                prev.0,
                required,
                16,
                d.len() as int,
            );
        }
    }
}

/// Writing the entry bytes `e` at the cursor: into the sector held in
/// memory; when that reaches the sector's end, the next place is the start
/// of a sector read from disk: that of the first sector of the cursor's
/// cluster, or, where the sector number has reached the number of sectors
/// per cluster, of the cluster after it in the chain (allocated where the
/// chain ends). The sector held is not written back before that read.
pub open spec fn lfn_step(fs: FileSystemInfo, s: EntryCursor, e: Seq<u8>) -> Step {
    if s.offset + 32 > SECTOR_SIZE {
        Step::Stuck
    } else {
        let buf = with_bytes(s.buf, s.offset as int, e);
        let off = s.offset + 32;
        if off < SECTOR_SIZE {
            Step::Next(EntryCursor { buf, offset: off as u32, ..s })
        } else if s.sector + 1 > u32::MAX {
            Step::Stuck
        } else {
            let moved = if s.sector + 1 >= fs.sectors_per_cluster {
                next_link(s.disk, fs, s.cluster)
            } else {
                Some((s.disk, s.cluster))
            };
            match moved {
                None => Step::Failed(s.disk),
                Some(p) => if !cluster_on_disk(p.0, fs, p.1) {
                    Step::Stuck
                } else {
                    let sector = cluster_sector(fs, p.1);
                    Step::Next(
                        EntryCursor {
                            disk: p.0,
                            buf: sector_bytes(p.0, sector),
                            cluster: p.1,
                            sector: sector as u32,
                            offset: (off % 512) as u32,
                        },
                    )
                },
            }
        }
    }
}

/// Writing the first `n` of the entry bytes `lfns` from the cursor `s`.
pub open spec fn lfns_written(fs: FileSystemInfo, s: EntryCursor, lfns: Seq<Seq<u8>>, n: nat) -> Step
    decreases n,
{
    if n == 0 {
        Step::Next(s)
    } else {
        match lfns_written(fs, s, lfns, (n - 1) as nat) {
            Step::Next(t) => lfn_step(fs, t, lfns[n - 1]),
            other => other,
        }
    }
}

proof fn lemma_lfns_settled(fs: FileSystemInfo, s: EntryCursor, lfns: Seq<Seq<u8>>, m: nat, n: nat)
    requires
        m <= n,
        !(lfns_written(fs, s, lfns, m) is Next),
    ensures
        lfns_written(fs, s, lfns, n) == lfns_written(fs, s, lfns, m),
    decreases n - m,
{
    if m < n {
        lemma_lfns_settled(fs, s, lfns, m, (n - 1) as nat);
    }
}

/// The outcome of creating an entry.
pub enum Creation {
    /// The entry was written: the disk then.
    Done(Seq<u8>),
    /// The entry was not written: the disk then.
    Failed(Seq<u8>),
    /// A place or cluster met is not on the disk, or the chain loops.
    Stuck,
}

/// The entry bytes of the long name entries of `name`, in the order they
/// go on disk: the last part of the name first.
pub open spec fn lfn_entries_bytes(name: Seq<char>, name_len: usize, checksum: u8) -> Seq<Seq<u8>> {
    let k = (name_len / 13 + 1) as nat;
    Seq::new(k, |i: int| lfn_bytes_of(utf16_of(name), k - 1 - i, k as int, checksum))
}

/// Writing the long name entry bytes `lfns` from the cursor `start` (see
/// [`lfns_written`]), then the short entry bytes `entry` at the place
/// reached, and the sector held back to disk.
pub open spec fn entries_written(fs: FileSystemInfo, start: EntryCursor, lfns: Seq<Seq<u8>>, entry: Seq<u8>) -> Creation {
    match lfns_written(fs, start, lfns, lfns.len()) {
        Step::Stuck => Creation::Stuck,
        Step::Failed(d2) => Creation::Failed(d2),
        Step::Next(t) => if t.offset + 32 > SECTOR_SIZE || (t.sector + 1) * SECTOR_SIZE > t.disk.len() {
            Creation::Stuck
        } else {
            Creation::Done(with_bytes(t.disk, t.sector * SECTOR_SIZE, with_bytes(t.buf, t.offset as int, entry)))
        },
    }
}

/// Creating an entry named `name` in the directory at `parent`, pointing at
/// `cluster`, with `attributes` and the creation `time` and `date`: none
/// for an empty name; else room is looked for (see [`located`]) for the long
/// name entries and the short one; from the sector found, held in memory,
/// the long name entries are written (see [`lfn_step`]), then the short one,
/// and the sector held is written back.
pub open spec fn creation(
    d: Seq<u8>,
    fs: FileSystemInfo,
    parent: u32,
    name: Seq<char>,
    name_len: usize,
    attributes: u8,
    cluster: u32,
    time: u16,
    date: u16,
) -> Creation {
    if name.len() == 0 {
        Creation::Failed(d)
    } else {
        let short = short_name_of(name);
        let lfns = lfn_entries_bytes(name, name_len, checksum_upto(short, 11));
        match located(d, fs, parent, no_run(), lfns.len() + 1, fs.total_clusters as nat) {
            Located::Stuck => Creation::Stuck,
            Located::Missing(d1) => Creation::Failed(d1),
            Located::Found(d1, c, sector, offset) => if (sector + 1) * SECTOR_SIZE > d1.len() {
                Creation::Stuck
            } else {
                let start = EntryCursor { disk: d1, buf: sector_bytes(d1, sector as int), cluster: c, sector, offset };
                entries_written(fs, start, lfns, plain_entry_bytes(short, attributes, 100, time, date, cluster))
            },
        }
    }
}

/// The disk after creating an entry: that of [`Creation::Done`] or
/// [`Creation::Failed`]; `None` for [`Creation::Stuck`].
pub open spec fn created_disk(c: Creation) -> Option<Seq<u8>> {
    match c {
        Creation::Done(d) => Some(d),
        Creation::Failed(d) => Some(d),
        Creation::Stuck => None,
    }
}

/// Creating a file named `name` in the directory at `parent`: a free
/// cluster is allocated (nothing happens without one), the entry is
/// created for it (see [`creation`]) and the cluster is filled with zeros.
/// The disk after; `None` where that gets stuck.
pub open spec fn file_created(
    d: Seq<u8>,
    fs: FileSystemInfo,
    parent: u32,
    name: Seq<char>,
    name_len: usize,
    time: u16,
    date: u16,
) -> Option<Seq<u8>> {
    match first_free_cluster(d, fs, fs.root_dir_cluster as int, fs.total_clusters as int) {
        None => Some(d),
        Some(c) => match created_disk(creation(with_fat_entry(d, fs, c, CLUSTER_LAST), fs, parent, name, name_len, 0, c, time, date)) {
            None => None,
            Some(d2) => if cluster_on_disk(d2, fs, c) {
                Some(with_bytes(d2, cluster_sector(fs, c) * SECTOR_SIZE, zeros((fs.sectors_per_cluster * SECTOR_SIZE) as nat)))
            } else {
                None
            },
        },
    }
}

/// Creating a directory named `name` in the directory at `parent`: a free
/// cluster is allocated (nothing more happens without one, or when it is
/// cluster 0), the entry is created for it (see [`creation`]), and the "."
/// and ".." entries are written at the start of its first sector. The disk
/// after; `None` where that gets stuck.
pub open spec fn dir_created(
    d: Seq<u8>,
    fs: FileSystemInfo,
    parent: u32,
    name: Seq<char>,
    name_len: usize,
    time: u16,
    date: u16,
) -> Option<Seq<u8>> {
    match first_free_cluster(d, fs, fs.root_dir_cluster as int, fs.total_clusters as int) {
        None => Some(d),
        Some(c) => {
            let d1 = with_fat_entry(d, fs, c, CLUSTER_LAST);
            if c == 0 {
                Some(d1)
            } else {
                match created_disk(creation(d1, fs, parent, name, name_len, ATTR_DIRECTORY, c, time, date)) {
                    None => None,
                    Some(d2) => if cluster_on_disk(d2, fs, c) {
                        Some(
                            with_bytes(
                                d2,
                                cluster_sector(fs, c) * SECTOR_SIZE,
                                plain_entry_bytes(dot_name(), ATTR_DIRECTORY, 0, 0, 0, c) + plain_entry_bytes(
                                    dot_name().update(1, 0x2E),
                                    ATTR_DIRECTORY,
                                    0,
                                    0,
                                    0,
                                    parent,
                                ),
                            ),
                        )
                    } else {
                        None
                    },
                }
            }
        },
    }
}

proof fn lemma_first_free_in_range(d: Seq<u8>, fs: FileSystemInfo)
    requires
        layout_fits(fs, d.len() as int),
    ensures
        first_free_cluster(d, fs, fs.root_dir_cluster as int, fs.total_clusters as int) matches Some(c) ==> c
            < fs.total_clusters,
{
    lemma_first_free_below(d, fs, fs.root_dir_cluster as int, fs.total_clusters as int);
}

proof fn lemma_first_free_below(d: Seq<u8>, fs: FileSystemInfo, from: int, to: int)
    requires
        0 <= from,
        to <= u32::MAX,
    ensures
        first_free_cluster(d, fs, from, to) matches Some(c) ==> from <= c < to,
    decreases to - from,
{
    if from < to && fat_entry(d, fs, from as u32) != CLUSTER_FREE {
        lemma_first_free_below(d, fs, from + 1, to);
    }
}

proof fn lemma_creation_len(
    d: Seq<u8>,
    fs: FileSystemInfo,
    parent: u32,
    name: Seq<char>,
    name_len: usize,
    attributes: u8,
    cluster: u32,
    time: u16,
    date: u16,
)
    requires
        layout_fits(fs, d.len() as int),
    ensures
        created_disk(creation(d, fs, parent, name, name_len, attributes, cluster, time, date)) matches Some(d1)
            ==> d1.len() == d.len(),
{
    if name.len() != 0 {
        let short = short_name_of(name);
        let lfns = lfn_entries_bytes(name, name_len, checksum_upto(short, 11));
        lemma_located(d, fs, parent, no_run(), lfns.len() + 1, fs.total_clusters as nat);
        if let Located::Found(d1, c, sector, offset) = located(d, fs, parent, no_run(), lfns.len() + 1, fs.total_clusters as nat) {
            if (sector + 1) * SECTOR_SIZE <= d1.len() {
                let start = EntryCursor { disk: d1, buf: sector_bytes(d1, sector as int), cluster: c, sector, offset };
                assert forall|i: int| 0 <= i < lfns.len() implies (#[trigger] lfns[i]).len() == 32 by {}
                lemma_lfns_len(fs, start, lfns, lfns.len());
                if let Step::Next(t) = lfns_written(fs, start, lfns, lfns.len()) {
                    if t.offset + 32 <= SECTOR_SIZE && (t.sector + 1) * SECTOR_SIZE <= t.disk.len() {
                        lemma_short_name_index(name, name.len());
                        let e = plain_entry_bytes(short, attributes, 100, time, date, cluster);
                        assert(with_bytes(t.buf, t.offset as int, e).len() == t.buf.len());
                    }
                }
            }
        }
    }
}

proof fn lemma_lfns_len(fs: FileSystemInfo, s: EntryCursor, lfns: Seq<Seq<u8>>, n: nat)
    requires
        layout_fits(fs, s.disk.len() as int),
        s.buf.len() == SECTOR_SIZE,
        cluster_on_disk(s.disk, fs, s.cluster),
        forall|i: int| 0 <= i < lfns.len() ==> (#[trigger] lfns[i]).len() == 32,
        n <= lfns.len(),
    ensures
        lfns_written(fs, s, lfns, n) matches Step::Next(t) ==> t.disk.len() == s.disk.len() && t.buf.len()
            == SECTOR_SIZE && cluster_on_disk(t.disk, fs, t.cluster),
        lfns_written(fs, s, lfns, n) matches Step::Failed(d1) ==> d1.len() == s.disk.len(),
    decreases n,
{
    if n > 0 {
        lemma_lfns_len(fs, s, lfns, (n - 1) as nat);
        if let Step::Next(t) = lfns_written(fs, s, lfns, (n - 1) as nat) {
            assert(lfns[n - 1].len() == 32);
            if t.offset + 32 <= SECTOR_SIZE && t.offset + 32 >= SECTOR_SIZE && t.sector + 1 <= u32::MAX
                && t.sector + 1 >= fs.sectors_per_cluster {
                lemma_next_link_len(t.disk, fs, t.cluster);
            }
        }
    }
}

/// Copies `b` into `buf` from place `off` on.
fn put_bytes(buf: &mut Vec<u8>, off: usize, b: &[u8])
    requires
        off + b@.len() <= old(buf)@.len(),
    ensures
        final(buf)@ == with_bytes(old(buf)@, off as int, b@),
{
    let n = b.len();
    let total = buf.len();
    let mut i: usize = 0;
    while i < n
        invariant
            n == b@.len(),
            total == buf@.len(),
            off + n <= buf@.len(),
            buf@.len() == old(buf)@.len(),
            i <= n,
            forall|j: int|
                0 <= j < buf@.len() ==> #[trigger] buf@[j] == if off <= j < off + i {
                    b@[j - off]
                } else {
                    old(buf)@[j]
                },
        decreases n - i,
    {
        buf.set(off + i, b[i]);
        i = i + 1;
    }
    assert(buf@ =~= with_bytes(old(buf)@, off as int, b@));
}

impl FatDriver {
    /// Marks the entry `node` as deleted: the first byte of its name, in its
    /// sector on disk, becomes the free mark [`ENTRY_FREE`] (0xE5), so the place
    /// can be taken again. Its clusters stay taken.
    pub fn delete_entry(&mut self, node: &VfsDirectoryEntry)
        requires
            (node.sector + 1) * SECTOR_SIZE <= old(self).device@.len(),
            node.offset < SECTOR_SIZE,
        ensures
            final(self).fs == old(self).fs,
            final(self).device@ == old(self).device@.update(
                node.sector * SECTOR_SIZE + node.offset,
                ENTRY_FREE,
            ),
    {
        let sector = node.sector;
        let offset = node.offset;
        let mut buffer = self.device.read_sector(sector as u64);
        buffer.set(offset as usize, ENTRY_FREE);
        self.device.write_sector(sector as u64, &buffer);
        proof {
            let d = old(self).device@;
            assert(self.device@ =~= d.update(sector * SECTOR_SIZE + offset, ENTRY_FREE));
        }
    }

    /// Writes back the entry `node` with its size set to `size` (cut to 32
    /// bits), in its place on disk.
    pub fn update_entry(&mut self, node: &VfsDirectoryEntry, size: usize)
        requires
            (node.sector + 1) * SECTOR_SIZE <= old(self).device@.len(),
            node.offset + 32 <= SECTOR_SIZE,
        ensures
            final(self).fs == old(self).fs,
            final(self).device@ == with_bytes(
                old(self).device@,
                node.sector * SECTOR_SIZE + node.offset,
                entry_bytes(DirectoryEntry { size: size as u32, ..node.entry }),
            ),
    {
        let sector = node.sector;
        let offset = node.offset;
        let mut updated_entry = node.entry;
        updated_entry.size = size as u32;
        let mut buffer = self.device.read_sector(sector as u64);
        let bytes = updated_entry.to_bytes();
        put_bytes(&mut buffer, offset as usize, bytes.as_slice());
        self.device.write_sector(sector as u64, &buffer);
        proof {
            let d = old(self).device@;
            assert(self.device@ =~= with_bytes(d, sector * SECTOR_SIZE + offset, bytes@));
        }
    }

    /// Fills the sectors of `cluster` with zeros.
    pub fn clear_cluster(&mut self, cluster: u32)
        requires
            layout_fits(old(self).fs, old(self).device@.len() as int),
            cluster_on_disk(old(self).device@, old(self).fs, cluster),
        ensures
            final(self).fs == old(self).fs,
            final(self).device@ == with_bytes(
                old(self).device@,
                cluster_sector(old(self).fs, cluster) * SECTOR_SIZE,
                zeros((old(self).fs.sectors_per_cluster * SECTOR_SIZE) as nat),
            ),
    {
        let sector = self.get_sector(cluster);
        let mut buffer: Vec<u8> = Vec::new();
        let mut k: usize = 0;
        while k < SECTOR_SIZE
            invariant
                k <= SECTOR_SIZE,
                buffer@ == zeros(k as nat),
            decreases SECTOR_SIZE - k,
        {
            buffer.push(0);
            k = k + 1;
            assert(buffer@ =~= zeros(k as nat));
        }
        let ghost d = self.device@;
        let spc = self.fs.sectors_per_cluster;
        let mut i: u8 = 0;
        while i < spc
            invariant
                self.fs == old(self).fs,
                d == old(self).device@,
                spc == self.fs.sectors_per_cluster,
                sector == cluster_sector(self.fs, cluster),
                sector + spc <= u32::MAX,
                (sector + spc) * SECTOR_SIZE <= d.len(),
                buffer@ == zeros(SECTOR_SIZE as nat),
                i <= spc,
                self.device@ == with_bytes(d, sector * SECTOR_SIZE, zeros((i * SECTOR_SIZE) as nat)),
            decreases spc - i,
        {
            proof {
                lemma_with_bytes_extend(d, sector * SECTOR_SIZE, zeros((i * SECTOR_SIZE) as nat), zeros(SECTOR_SIZE as nat));
                assert(zeros((i * SECTOR_SIZE) as nat) + zeros(SECTOR_SIZE as nat) =~= zeros(((i + 1) * SECTOR_SIZE) as nat));
            }
            self.device.write_sector(sector as u64 + i as u64, &buffer);
            i = i + 1;
        }
    }

    /// Writes `bytes_to_write` bytes of `data`, from place `written_bytes`
    /// on, at the start of sector `sector_start + sector_offset`; the rest of
    /// the sector keeps its bytes.
    pub fn write_to_sector(
        &mut self,
        data: &[u8],
        sector_start: u32,
        sector_offset: u8,
        written_bytes: usize,
        bytes_to_write: usize,
    )
        requires
            layout_fits(old(self).fs, old(self).device@.len() as int),
            (sector_start + sector_offset + 1) * SECTOR_SIZE <= old(self).device@.len(),
            bytes_to_write <= SECTOR_SIZE,
            written_bytes + bytes_to_write <= data@.len(),
        ensures
            final(self).fs == old(self).fs,
            final(self).device@ == with_bytes(
                old(self).device@,
                (sector_start + sector_offset) * SECTOR_SIZE,
                data@.subrange(written_bytes as int, written_bytes + bytes_to_write),
            ),
    {
        let sector = sector_start as u64 + sector_offset as u64;
        let ghost d = self.device@;
        if bytes_to_write < SECTOR_SIZE {
            let mut write_buffer = self.device.read_sector(sector);
            let part = slice_part(data, written_bytes, bytes_to_write);
            put_bytes(&mut write_buffer, 0, part.as_slice());
            self.device.write_sector(sector, &write_buffer);
            proof {
                assert(self.device@ =~= with_bytes(d, sector * SECTOR_SIZE, part@));
            }
        } else {
            let write_buffer = slice_part(data, written_bytes, SECTOR_SIZE);
            self.device.write_sector(sector, &write_buffer);
        }
    }


    /// Writes the first `size` bytes of `data` into the file of `entry`, as
    /// [`file_written`] describes, from the entry's first cluster; then marks
    /// the last cluster written as the end of the chain with [`CHAIN_END`]
    /// and writes the entry back with its size set to `size`.
    pub fn write_file(&mut self, entry: &mut VfsDirectoryEntry, data: &[u8], size: usize)
        requires
            layout_fits(old(self).fs, old(self).device@.len() as int),
            size <= data@.len(),
            old(self).fs.cluster_size > 0,
            (size as u32) + old(self).fs.cluster_size <= u32::MAX,
            (old(entry).sector + 1) * SECTOR_SIZE <= old(self).device@.len(),
            old(entry).offset + 32 <= SECTOR_SIZE,
            file_written(
                old(self).device@,
                old(self).fs,
                entry_cluster(old(entry).entry),
                data@,
                size as nat,
                0,
                clusters_needed(size, old(self).fs.cluster_size),
            ) matches Some(p) && p.1 < old(self).fs.total_clusters,
        ensures
            *final(entry) == *old(entry),
            final(self).fs == old(self).fs,
            ({
                let p = file_written(
                    old(self).device@,
                    old(self).fs,
                    entry_cluster(old(entry).entry),
                    data@,
                    size as nat,
                    0,
                    clusters_needed(size, old(self).fs.cluster_size),
                )->0;
                final(self).device@ == with_bytes(
                    with_fat_entry(p.0, old(self).fs, p.1, CHAIN_END),
                    old(entry).sector * SECTOR_SIZE + old(entry).offset,
                    entry_bytes(DirectoryEntry { size: size as u32, ..old(entry).entry }),
                )
            }),
    {
        let ghost d = self.device@;
        let ghost fs = self.fs;
        let _len = data.len();
        let clusters_needed = ((size as u32) + self.fs.cluster_size - 1) / self.fs.cluster_size;
        let mut written_bytes: usize = 0;
        let mut current_cluster = entry.get_cluster();
        let mut last_cluster = current_cluster;
        let ghost target = file_written(d, fs, current_cluster, data@, size as nat, 0, clusters_needed as nat);
        let mut iter: u32 = 0;
        while iter < clusters_needed
            invariant
                self.fs == fs,
                layout_fits(fs, d.len() as int),
                self.device@.len() == d.len(),
                _len == data@.len(),
                size <= data@.len(),
                last_cluster == current_cluster,
                written_bytes <= size,
                iter <= clusters_needed,
                target is Some,
                file_written(
                    self.device@,
                    fs,
                    current_cluster,
                    data@,
                    size as nat,
                    written_bytes as nat,
                    (clusters_needed - iter) as nat,
                ) == target,
            decreases clusters_needed - iter,
        {
            let sector = self.get_sector(current_cluster);
            let spc = self.fs.sectors_per_cluster;
            let ghost d0 = self.device@;
            let ghost w0 = written_bytes as nat;
            let mut sector_offset: u8 = 0;
            let mut done = false;
            proof {
                lemma_sectors_written(d0, sector as int, data@, size as nat, w0, spc as nat);
            }
            while sector_offset < spc && !done
                invariant
                    self.fs == fs,
                    layout_fits(fs, d.len() as int),
                    d0.len() == d.len(),
                    _len == data@.len(),
                    size <= data@.len(),
                    spc == fs.sectors_per_cluster,
                    sector == cluster_sector(fs, current_cluster),
                    sector + spc <= u32::MAX,
                    (sector + spc) * SECTOR_SIZE <= d.len(),
                    sector_offset <= spc,
                    w0 <= size,
                    sectors_written(d0, sector as int, data@, size as nat, w0, sector_offset as nat) == (
                        self.device@,
                        written_bytes as nat,
                        done,
                    ),
                    self.device@.len() == d.len(),
                    written_bytes <= size,
                decreases spc - sector_offset,
            {
                let bytes_left = size - written_bytes;
                let bytes_to_write = if bytes_left < SECTOR_SIZE { bytes_left } else { SECTOR_SIZE };
                proof {
                    lemma_sectors_written(d0, sector as int, data@, size as nat, w0, (sector_offset + 1) as nat);
                }
                self.write_to_sector(data, sector, sector_offset, written_bytes, bytes_to_write);
                written_bytes = written_bytes + bytes_to_write;
                if written_bytes >= size {
                    done = true;
                }
                sector_offset = sector_offset + 1;
            }
            proof {
                if done {
                    lemma_sectors_stopped(d0, sector as int, data@, size as nat, w0, sector_offset as nat, spc as nat);
                }
            }
            if written_bytes < size {
                let next_cluster = self.get_next_cluster(current_cluster);
                if next_cluster == CHAIN_END {
                    proof {
                        lemma_next_link_len(self.device@, fs, current_cluster);
                    }
                    match self.next_cluster(current_cluster) {
                        Some(c) => {
                            current_cluster = c;
                        },
                        None => {},
                    }
                } else {
                    current_cluster = next_cluster;
                }
                last_cluster = current_cluster;
            }
            iter = iter + 1;
            proof {
                lemma_file_written_len(
                    self.device@,
                    fs,
                    current_cluster,
                    data@,
                    size as nat,
                    written_bytes as nat,
                    (clusters_needed - iter) as nat,
                );
            }
        }
        proof {
            lemma_file_written_len(d, fs, entry_cluster(entry.entry), data@, size as nat, 0, clusters_needed as nat);
        }
        self.set_next_cluster(last_cluster, CHAIN_END);
        proof {
            lemma_with_u32_len(self.device@, fs, last_cluster, CHAIN_END);
        }
        self.update_entry(entry, size);
    }


    /// Looks for `required_entries` free entries in a row in the directory
    /// chain from `start_cluster`, as [`located`] describes: the cluster
    /// looked at when they were found, and the sector and place of the first.
    pub fn locate_free_entries(&mut self, start_cluster: u32, required_entries: usize) -> (r: Option<(u32, u32, u32)>)
        requires
            layout_fits(old(self).fs, old(self).device@.len() as int),
            required_entries > 0,
            !(located(
                old(self).device@,
                old(self).fs,
                start_cluster,
                no_run(),
                required_entries as nat,
                old(self).fs.total_clusters as nat,
            ) is Stuck),
        ensures
            final(self).fs == old(self).fs,
            match located(
                old(self).device@,
                old(self).fs,
                start_cluster,
                no_run(),
                required_entries as nat,
                old(self).fs.total_clusters as nat,
            ) {
                Located::Found(d1, c, sector, offset) => r == Some((c, sector, offset)) && final(self).device@ == d1,
                Located::Missing(d1) => r is None && final(self).device@ == d1,
                Located::Stuck => false,
            },
    {
        let ghost fs = self.fs;
        let ghost len = self.device@.len();
        let ghost target = located(self.device@, fs, start_cluster, no_run(), required_entries as nat, fs.total_clusters as nat);
        let mut current_cluster = start_cluster;
        let mut sector_found: u32 = 0;
        let mut offset_found: u32 = 0;
        let mut free_entries: usize = 0;
        let ghost mut fuel: nat = fs.total_clusters as nat;
        while current_cluster != CLUSTER_FREE && current_cluster < CLUSTER_LAST
            invariant
                fs == old(self).fs,
                target == located(old(self).device@, old(self).fs, start_cluster, no_run(), required_entries as nat, old(self).fs.total_clusters as nat),
                self.fs == fs,
                self.device@.len() == len,
                layout_fits(fs, len as int),
                free_entries < required_entries,
                free_entries == 0 ==> sector_found == 0 && offset_found == 0,
                !(target is Stuck),
                located(
                    self.device@,
                    fs,
                    current_cluster,
                    FreeRun { count: free_entries as nat, sector: sector_found, offset: offset_found },
                    required_entries as nat,
                    fuel,
                ) == target,
            decreases fuel,
        {
            let first_sector_of_cluster = self.get_sector(current_cluster);
            let spc = self.fs.sectors_per_cluster;
            let per_sector = self.fs.bytes_per_sector / 32;
            let ghost d0 = self.device@;
            let ghost run0 = FreeRun { count: free_entries as nat, sector: sector_found, offset: offset_found };
            let mut sector_idx: u8 = 0;
            while sector_idx < spc
                invariant
                    fs == old(self).fs,
                    target == located(old(self).device@, old(self).fs, start_cluster, no_run(), required_entries as nat, old(self).fs.total_clusters as nat),
                    current_cluster != CLUSTER_FREE && current_cluster < CLUSTER_LAST,
                    !(target is Stuck),
                    self.fs == fs,
                    self.device@ == d0,
                    located(d0, fs, current_cluster, run0, required_entries as nat, fuel) == target,
                    d0.len() == len,
                    layout_fits(fs, len as int),
                    per_sector == 16,
                    spc == fs.sectors_per_cluster,
                    first_sector_of_cluster == cluster_sector(fs, current_cluster),
                    first_sector_of_cluster + spc <= u32::MAX,
                    (first_sector_of_cluster + spc) * SECTOR_SIZE <= len,
                    sector_idx <= spc,
                    free_entries < required_entries,
                    free_entries == 0 ==> sector_found == 0 && offset_found == 0,
                    free_run_cluster(d0, first_sector_of_cluster as int, run0, required_entries as nat, sector_idx as nat) == (
                        FreeRun { count: free_entries as nat, sector: sector_found, offset: offset_found },
                        false,
                    ),
                decreases spc - sector_idx,
            {
                let buffer = self.read_sector(first_sector_of_cluster, sector_idx as u32);
                let sector_number = first_sector_of_cluster + sector_idx as u32;
                let ghost run1 = FreeRun { count: free_entries as nat, sector: sector_found, offset: offset_found };
                let mut entry_idx: u16 = 0;
                while entry_idx < per_sector
                    invariant
                        fs == old(self).fs,
                        target == located(old(self).device@, old(self).fs, start_cluster, no_run(), required_entries as nat, old(self).fs.total_clusters as nat),
                        current_cluster != CLUSTER_FREE && current_cluster < CLUSTER_LAST,
                        !(target is Stuck),
                        self.fs == fs,
                        self.device@ == d0,
                        sector_idx < spc,
                        spc == fs.sectors_per_cluster,
                        buffer@ == sector_bytes(d0, first_sector_of_cluster + sector_idx),
                        sector_number == first_sector_of_cluster + sector_idx,
                        first_sector_of_cluster == cluster_sector(fs, current_cluster),
                        free_run_cluster(d0, first_sector_of_cluster as int, run0, required_entries as nat, sector_idx as nat) == (
                            run1,
                            false,
                        ),
                        located(d0, fs, current_cluster, run0, required_entries as nat, fuel) == target,
                        buffer@.len() == SECTOR_SIZE,
                        per_sector == 16,
                        entry_idx <= per_sector,
                        free_entries < required_entries,
                        free_entries == 0 ==> sector_found == 0 && offset_found == 0,
                        free_run_sector(buffer@, sector_number, run1, required_entries as nat, entry_idx as nat) == (
                            FreeRun { count: free_entries as nat, sector: sector_found, offset: offset_found },
                            false,
                        ),
                    decreases per_sector - entry_idx,
                {
                    let dir_entry = DirectoryEntry::from_bytes(buffer.as_slice(), entry_idx as usize * 32);
                    if dir_entry.is_free() {
                        if free_entries == 0 {
                            sector_found = sector_number;
                            offset_found = entry_idx as u32 * 32;
                        }
                        free_entries = free_entries + 1;
                        if free_entries == required_entries {
                            proof {
                                let found = FreeRun { count: free_entries as nat, sector: sector_found, offset: offset_found };
                                assert(free_run_sector(buffer@, sector_number, run1, required_entries as nat, (entry_idx + 1) as nat) == (found, true));
                                lemma_located_found(d0, fs, current_cluster, run0, required_entries as nat, fuel, sector_idx as nat, run1, entry_idx as nat, found);
                            }
                            return Some((current_cluster, sector_found, offset_found));
                        }
                    } else {
                        free_entries = 0;
                        sector_found = 0;
                        offset_found = 0;
                    }
                    entry_idx = entry_idx + 1;
                }
                sector_idx = sector_idx + 1;
            }
            proof {
                lemma_next_link_len(d0, fs, current_cluster);
                fuel = (fuel - 1) as nat;
            }
            match self.next_cluster(current_cluster) {
                Some(next) => {
                    current_cluster = next;
                },
                None => {
                    return None;
                },
            }
        }
        None
    }


    /// Writes the entry bytes `bytes` at the cursor held in
    /// `read_buffer`, `entry_cluster`, `entry_sector` and `sector_offset`,
    /// as [`lfn_step`] describes; `false` when no cluster could be allocated.
    fn put_lfn(
        &mut self,
        read_buffer: &mut Vec<u8>,
        entry_cluster: &mut u32,
        entry_sector: &mut u32,
        sector_offset: &mut u32,
        bytes: &Vec<u8>,
    ) -> (ok: bool)
        requires
            layout_fits(old(self).fs, old(self).device@.len() as int),
            old(read_buffer)@.len() == SECTOR_SIZE,
            cluster_on_disk(old(self).device@, old(self).fs, *old(entry_cluster)),
            bytes@.len() == 32,
            !(lfn_step(
                old(self).fs,
                EntryCursor {
                    disk: old(self).device@,
                    buf: old(read_buffer)@,
                    cluster: *old(entry_cluster),
                    sector: *old(entry_sector),
                    offset: *old(sector_offset),
                },
                bytes@,
            ) is Stuck),
        ensures
            final(self).fs == old(self).fs,
            match lfn_step(
                old(self).fs,
                EntryCursor {
                    disk: old(self).device@,
                    buf: old(read_buffer)@,
                    cluster: *old(entry_cluster),
                    sector: *old(entry_sector),
                    offset: *old(sector_offset),
                },
                bytes@,
            ) {
                Step::Next(t) => ok && t == (EntryCursor {
                    disk: final(self).device@,
                    buf: final(read_buffer)@,
                    cluster: *final(entry_cluster),
                    sector: *final(entry_sector),
                    offset: *final(sector_offset),
                }),
                Step::Failed(d1) => !ok && final(self).device@ == d1,
                Step::Stuck => false,
            },
    {
        put_bytes(read_buffer, *sector_offset as usize, bytes.as_slice());
        *sector_offset = *sector_offset + 32;
        if *sector_offset >= 512 {
            *sector_offset = *sector_offset % 512;
            *entry_sector = *entry_sector + 1;
            if *entry_sector >= self.fs.sectors_per_cluster as u32 {
                *entry_sector = 0;
                match self.next_cluster(*entry_cluster) {
                    Some(next) => {
                        *entry_cluster = next;
                    },
                    None => {
                        return false;
                    },
                }
            }
            *entry_sector = self.get_sector(*entry_cluster);
            *read_buffer = self.read_sector(*entry_sector, 0);
        }
        true
    }

    /// Creates an entry named `name` in the directory at `parent_cluster`,
    /// pointing at `cluster`, with `attributes` and the creation `time` and
    /// `date`, as [`creation`] describes: `cluster` when it was written,
    /// `None` when it was not.
    #[verifier::rlimit(30)]
    pub fn create_entry(
        &mut self,
        parent_cluster: u32,
        name: &str,
        attributes: u8,
        cluster: u32,
        time: u16,
        date: u16,
    ) -> (r: Option<u32>)
        requires
            layout_fits(old(self).fs, old(self).device@.len() as int),
            !(creation(old(self).device@, old(self).fs, parent_cluster, name@, name.len(), attributes, cluster, time, date) is Stuck),
        ensures
            final(self).fs == old(self).fs,
            match creation(old(self).device@, old(self).fs, parent_cluster, name@, name.len(), attributes, cluster, time, date) {
                Creation::Done(d1) => r == Some(cluster) && final(self).device@ == d1,
                Creation::Failed(d1) => r is None && final(self).device@ == d1,
                Creation::Stuck => false,
            },
    {
        if name.is_empty() {
            return None;
        }
        let ghost fs = self.fs;
        let ghost d = self.device@;
        let short_name = create_short_filename(name);
        let checksum = calculate_checksum(&short_name);
        let lfn_entries = create_lfn_entries(name, checksum);
        let ghost lfns = lfn_entries_bytes(name@, name.len(), checksum);
        proof {
            assert(lfns.len() == lfn_entries@.len());
        }
        let n = lfn_entries.len();
        let located = self.locate_free_entries(parent_cluster, n + 1);
        proof {
            lemma_located(d, fs, parent_cluster, no_run(), (n + 1) as nat, fs.total_clusters as nat);
        }
        let (mut entry_cluster, mut entry_sector, mut sector_offset) = match located {
            Some(t) => t,
            None => {
                return None;
            },
        };
        let mut read_buffer = self.read_sector(entry_sector, 0);
        let ghost start = EntryCursor {
            disk: self.device@,
            buf: read_buffer@,
            cluster: entry_cluster,
            sector: entry_sector,
            offset: sector_offset,
        };
        let ghost len = d.len();
        let ghost entry_b = plain_entry_bytes(short_name@, attributes, 100, time, date, cluster);
        proof {
            assert(creation(d, fs, parent_cluster, name@, name.len(), attributes, cluster, time, date) == entries_written(
                fs,
                start,
                lfns,
                entry_b,
            ));
        }
        let mut i: usize = 0;
        while i < n
            invariant
                creation(d, fs, parent_cluster, name@, name.len(), attributes, cluster, time, date) == entries_written(
                    fs,
                    start,
                    lfns,
                    entry_b,
                ),
                entry_b == plain_entry_bytes(short_name@, attributes, 100, time, date, cluster),
                fs == old(self).fs,
                d == old(self).device@,
                self.fs == fs,
                layout_fits(fs, len as int),
                len == d.len(),
                n == lfn_entries@.len(),
                lfns == lfn_entries_bytes(name@, name.len(), checksum),
                lfns.len() == n,
                checksum == checksum_upto(short_name@, 11),
                short_name@ == short_name_of(name@),
                forall|j: int|
                    0 <= j < n ==> is_lfn_entry(
                        #[trigger] lfn_entries@[n - 1 - j],
                        utf16_of(name@),
                        j,
                        n as int,
                        checksum,
                    ),
                i <= n,
                self.device@.len() == len,
                read_buffer@.len() == SECTOR_SIZE,
                cluster_on_disk(self.device@, fs, entry_cluster),
                !(lfns_written(fs, start, lfns, n as nat) is Stuck),
                lfns_written(fs, start, lfns, i as nat) == Step::Next(
                    EntryCursor {
                        disk: self.device@,
                        buf: read_buffer@,
                        cluster: entry_cluster,
                        sector: entry_sector,
                        offset: sector_offset,
                    },
                ),
            decreases n - i,
        {
            let bytes = lfn_entries[i].to_bytes();
            proof {
                let j = n - 1 - i;
                assert(lfn_entries@[n - 1 - j] == lfn_entries@[i as int]);
                lemma_lfn_bytes(lfn_entries@[i as int], utf16_of(name@), j, n as int, checksum);
                assert(bytes@ == lfns[i as int]);
            }
            proof {
                let cur = EntryCursor {
                    disk: self.device@,
                    buf: read_buffer@,
                    cluster: entry_cluster,
                    sector: entry_sector,
                    offset: sector_offset,
                };
                assert(lfns_written(fs, start, lfns, (i + 1) as nat) == lfn_step(fs, cur, lfns[i as int]));
                if lfn_step(fs, cur, lfns[i as int]) is Stuck {
                    lemma_lfns_settled(fs, start, lfns, (i + 1) as nat, n as nat);
                }
                if entry_sector + 1 >= self.fs.sectors_per_cluster {
                    lemma_next_link_len(self.device@, fs, entry_cluster);
                }
            }
            let ok = self.put_lfn(&mut read_buffer, &mut entry_cluster, &mut entry_sector, &mut sector_offset, &bytes);
            if !ok {
                proof {
                    lemma_lfns_settled(fs, start, lfns, (i + 1) as nat, n as nat);
                }
                return None;
            }
            i = i + 1;
        }
        let entry = DirectoryEntry::new(short_name, cluster, attributes, time, date);
        let entry_bytes = entry.to_bytes();
        proof {
            assert(entry_bytes@ =~= plain_entry_bytes(short_name@, attributes, 100, time, date, cluster));
        }
        put_bytes(&mut read_buffer, sector_offset as usize, entry_bytes.as_slice());
        self.device.write_sector(entry_sector as u64, &read_buffer);
        Some(cluster)
    }

    /// Creates a file named `name` in the directory at `parent_cluster`, as
    /// [`file_created`] describes.
    pub fn create_file(&mut self, parent_cluster: u32, name: &str, time: u16, date: u16)
        requires
            layout_fits(old(self).fs, old(self).device@.len() as int),
            file_created(old(self).device@, old(self).fs, parent_cluster, name@, name.len(), time, date) is Some,
        ensures
            final(self).fs == old(self).fs,
            final(self).device@ == file_created(old(self).device@, old(self).fs, parent_cluster, name@, name.len(), time, date)->0,
    {
        let ghost d = self.device@;
        let ghost fs = self.fs;
        let new_file_cluster = match self.alloc_cluster() {
            Some(c) => c,
            None => {
                return;
            },
        };
        proof {
            lemma_first_free_in_range(d, fs);
            lemma_with_u32_len(d, fs, new_file_cluster, CLUSTER_LAST);
            lemma_creation_len(self.device@, fs, parent_cluster, name@, name.len(), 0, new_file_cluster, time, date);
        }
        let _ = self.create_entry(parent_cluster, name, 0, new_file_cluster, time, date);
        self.clear_cluster(new_file_cluster);
    }

    /// Creates a directory named `name` in the directory at `parent_cluster`,
    /// as [`dir_created`] describes.
    #[verifier::rlimit(40)]
    pub fn create_dir(&mut self, parent_cluster: u32, name: &str, time: u16, date: u16)
        requires
            layout_fits(old(self).fs, old(self).device@.len() as int),
            dir_created(old(self).device@, old(self).fs, parent_cluster, name@, name.len(), time, date) is Some,
        ensures
            final(self).fs == old(self).fs,
            final(self).device@ == dir_created(old(self).device@, old(self).fs, parent_cluster, name@, name.len(), time, date)->0,
    {
        let ghost d = self.device@;
        let ghost fs = self.fs;
        let new_dir_cluster = match self.alloc_cluster() {
            Some(c) => c,
            None => {
                return;
            },
        };
        if new_dir_cluster == 0 {
            return;
        }
        proof {
            lemma_first_free_in_range(d, fs);
            lemma_with_u32_len(d, fs, new_dir_cluster, CLUSTER_LAST);
            lemma_creation_len(self.device@, fs, parent_cluster, name@, name.len(), ATTR_DIRECTORY, new_dir_cluster, time, date);
        }
        let _ = self.create_entry(parent_cluster, name, ATTR_DIRECTORY, new_dir_cluster, time, date);
        let sector = self.get_sector(new_dir_cluster);
        let dot_entry = DirectoryEntry::create_dot_entry(new_dir_cluster);
        let dotdot_entry = DirectoryEntry::create_dotdot_entry(parent_cluster);
        let mut buffer = self.device.read_sector(sector as u64);
        let dot_bytes = dot_entry.to_bytes();
        let dotdot_bytes = dotdot_entry.to_bytes();
        proof {
            assert(dot_bytes@ =~= plain_entry_bytes(dot_name(), ATTR_DIRECTORY, 0, 0, 0, new_dir_cluster));
            assert(dotdot_bytes@ =~= plain_entry_bytes(dot_name().update(1, 0x2E), ATTR_DIRECTORY, 0, 0, 0, parent_cluster));
        }
        let ghost before = self.device@;
        let ghost b0 = buffer@;
        put_bytes(&mut buffer, 0, dot_bytes.as_slice());
        put_bytes(&mut buffer, 32, dotdot_bytes.as_slice());
        self.device.write_sector(sector as u64, &buffer);
        proof {
            assert(buffer@ =~= with_bytes(b0, 0, dot_bytes@ + dotdot_bytes@));
            assert(self.device@ =~= with_bytes(before, sector * SECTOR_SIZE, dot_bytes@ + dotdot_bytes@));
        }
    }

    /// The bytes of the file whose chain starts at `cluster`: the sectors of
    /// each of its clusters, in the order of the chain.
    pub fn read_file(&self, cluster: u32) -> (data: Vec<u8>)
        requires
            layout_fits(self.fs, self.device@.len() as int),
            file_chain(self.device@, self.fs, cluster, self.fs.total_clusters as nat) is Some,
        ensures
            data@ == clusters_bytes(
                self.device@,
                self.fs,
                file_chain(self.device@, self.fs, cluster, self.fs.total_clusters as nat)->0,
            ),
    {
        let ghost d = self.device@;
        let ghost fs = self.fs;
        let ghost full = file_chain(d, fs, cluster, fs.total_clusters as nat)->0;
        let ghost mut seen: Seq<u32> = Seq::empty();
        let ghost mut fuel: nat = fs.total_clusters as nat;
        let mut cluster = cluster;
        let mut buffer: Vec<u8> = Vec::new();
        while cluster < CLUSTER_LAST
            invariant
                d == self.device@,
                fs == self.fs,
                layout_fits(fs, d.len() as int),
                file_chain(d, fs, cluster, fuel) is Some,
                seen + file_chain(d, fs, cluster, fuel)->0 == full,
                buffer@ == clusters_bytes(d, fs, seen),
            decreases fuel,
        {
            let sector = self.get_sector(cluster);
            let spc = self.fs.sectors_per_cluster;
            let mut i: u8 = 0;
            while i < spc
                invariant
                    d == self.device@,
                    fs == self.fs,
                    spc == fs.sectors_per_cluster,
                    sector == cluster_sector(fs, cluster),
                    sector + spc <= u32::MAX,
                    (sector + spc) * SECTOR_SIZE <= d.len(),
                    i <= spc,
                    buffer@ == clusters_bytes(d, fs, seen) + d.subrange(
                        sector * SECTOR_SIZE,
                        (sector + i) * SECTOR_SIZE,
                    ),
                decreases spc - i,
            {
                let mut part = self.read_sector(sector, i as u32);
                proof {
                    assert(d.subrange(sector * SECTOR_SIZE, (sector + i) * SECTOR_SIZE) + part@ =~= d.subrange(
                        sector * SECTOR_SIZE,
                        (sector + i + 1) * SECTOR_SIZE,
                    ));
                }
                buffer.append(&mut part);
                i = i + 1;
            }
            proof {
                let rest = file_chain(d, fs, fat_entry(d, fs, cluster), (fuel - 1) as nat)->0;
                assert(seen.push(cluster) + rest =~= seen + (seq![cluster] + rest));
                assert(seen.push(cluster).drop_last() =~= seen);
                seen = seen.push(cluster);
                fuel = (fuel - 1) as nat;
            }
            cluster = self.get_next_cluster(cluster);
        }
        proof {
            assert(seen =~= full);
        }
        buffer
    }
}

/// The `n` bytes of `data` from place `start` on.
fn slice_part(data: &[u8], start: usize, n: usize) -> (part: Vec<u8>)
    requires
        start + n <= data@.len(),
    ensures
        part@ == data@.subrange(start as int, start + n),
{
    let total = data.len();
    let mut part: Vec<u8> = Vec::new();
    let mut i: usize = 0;
    while i < n
        invariant
            total == data@.len(),
            start + n <= data@.len(),
            i <= n,
            part@ == data@.subrange(start as int, start + i),
        decreases n - i,
    {
        part.push(data[start + i]);
        i = i + 1;
    }
    part
}

} // verus!
