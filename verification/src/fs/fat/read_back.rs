use vstd::prelude::*;
use crate::fs::disk::{le32, SECTOR_SIZE};
use crate::fs::fat::fat_driver::{
    cluster_sector, fat_entry, fat_pos, first_free_cluster, layout_fits, lemma_fat_entry_write, lemma_fat_pos,
    lemma_first_free_range, lemma_with_u32_len, next_link, with_fat_entry, FileSystemInfo,
    CLUSTER_LAST,
};
use crate::fs::fat::dir_entry::{entry_bytes, DirectoryEntry};
use crate::fs::fat::fat_driver::entry_cluster;
use crate::fs::fat::fat_write::{
    cluster_on_disk, clusters_bytes, clusters_needed, file_chain, file_written, sectors_written, with_bytes, CHAIN_END,
};

verus! {

/// Whether the FAT of `fs` lies before its data area: the entries of all
/// clusters come before the first sector of the data area.
pub open spec fn fat_before_data(fs: FileSystemInfo) -> bool {
    fs.first_fat_sector * SECTOR_SIZE + fs.total_clusters * 4 <= fs.first_data_sector * SECTOR_SIZE
}

/// Whether the byte at `p` lies in the sectors of `cluster`.
pub open spec fn in_cluster(fs: FileSystemInfo, cluster: u32, p: int) -> bool {
    cluster_sector(fs, cluster) * SECTOR_SIZE <= p < (cluster_sector(fs, cluster) + fs.sectors_per_cluster)
        * SECTOR_SIZE
}

/// Whether the byte at `p` lies in the FAT entry of `cluster`.
pub open spec fn in_slot(fs: FileSystemInfo, cluster: u32, p: int) -> bool {
    fat_pos(fs, cluster) <= p < fat_pos(fs, cluster) + 4
}

/// Whether the byte at `p` lies outside the sectors and the FAT entries of
/// all of `clusters`.
pub open spec fn untouched(fs: FileSystemInfo, clusters: Seq<u32>, p: int) -> bool {
    forall|i: int|
        0 <= i < clusters.len() ==> !in_cluster(fs, #[trigger] clusters[i], p) && !in_slot(fs, clusters[i], p)
}

/// Whether the first bytes of `cluster` on `d` hold the bytes of `data`
/// from `from` on: as many as a cluster holds, or as are left of the first
/// `size`.
pub open spec fn filled_with(d: Seq<u8>, fs: FileSystemInfo, cluster: u32, data: Seq<u8>, size: nat, from: int) -> bool {
    let csb = fs.sectors_per_cluster * SECTOR_SIZE;
    let n = if size - from < csb { size - from } else { csb };
    let start = cluster_sector(fs, cluster) * SECTOR_SIZE;
    d.subrange(start, start + n) == data.subrange(from, from + n)
}

/// The clusters into which [`file_written`] puts bytes of the data, in
/// order: those it reaches while bytes of the first `size` are left.
pub open spec fn filled_clusters(
    d: Seq<u8>,
    fs: FileSystemInfo,
    cluster: u32,
    data: Seq<u8>,
    size: nat,
    w: nat,
    k: nat,
) -> Seq<u32>
    decreases k,
{
    if k == 0 || w >= size || !cluster_on_disk(d, fs, cluster) {
        Seq::empty()
    } else {
        let (d1, w1, stop) = sectors_written(
            d,
            cluster_sector(fs, cluster),
            data,
            size,
            w,
            fs.sectors_per_cluster as nat,
        );
        if w1 < size {
            let next = fat_entry(d1, fs, cluster);
            if next == CHAIN_END {
                match next_link(d1, fs, cluster) {
                    Some(p) => seq![cluster] + filled_clusters(p.0, fs, p.1, data, size, w1, (k - 1) as nat),
                    None => seq![cluster],
                }
            } else {
                seq![cluster] + filled_clusters(d1, fs, next, data, size, w1, (k - 1) as nat)
            }
        } else {
            seq![cluster]
        }
    }
}

/// Writing the sectors of a run from `first` on, `w` bytes of `size`
/// written: the bytes written are those of `data` that follow, up to `n`
/// sectors' worth, and nothing outside the run changes.
proof fn lemma_sectors_at(d: Seq<u8>, first: int, data: Seq<u8>, size: nat, w: nat, n: nat)
    requires
        0 <= first,
        (first + n) * SECTOR_SIZE <= d.len(),
        w < size <= data.len(),
    ensures
        ({
            let (d1, w1, stop) = sectors_written(d, first, data, size, w, n);
            &&& d1.len() == d.len()
            &&& w1 == if w + n * SECTOR_SIZE < size { w + n * SECTOR_SIZE } else { size as int }
            &&& stop == (n > 0 && w + n * SECTOR_SIZE >= size)
            &&& d1.subrange(first * SECTOR_SIZE, first * SECTOR_SIZE + (w1 - w)) == data.subrange(w as int, w1 as int)
            &&& forall|p: int|
                0 <= p < d.len() && !(first * SECTOR_SIZE <= p < (first + n) * SECTOR_SIZE) ==> #[trigger] d1[p] == d[p]
        }),
    decreases n,
{
    if n > 0 {
        lemma_sectors_at(d, first, data, size, w, (n - 1) as nat);
        let (d0, w0, stop0) = sectors_written(d, first, data, size, w, (n - 1) as nat);
        assert((first + n - 1) * SECTOR_SIZE + SECTOR_SIZE == (first + n) * SECTOR_SIZE);
        if !stop0 {
            assert(w0 == w + (n - 1) * SECTOR_SIZE);
            let k: nat = if size - w0 < SECTOR_SIZE { (size - w0) as nat } else { SECTOR_SIZE as nat };
            let chunk = data.subrange(w0 as int, (w0 + k) as int);
            let pos = (first + n - 1) * SECTOR_SIZE;
            let d1 = with_bytes(d0, pos, chunk);
            assert(pos == first * SECTOR_SIZE + (w0 - w));
            assert(d1.subrange(first * SECTOR_SIZE, first * SECTOR_SIZE + (w0 - w) + k) =~= d0.subrange(
                first * SECTOR_SIZE,
                first * SECTOR_SIZE + (w0 - w),
            ) + chunk);
            assert(data.subrange(w as int, (w0 + k) as int) =~= data.subrange(w as int, w0 as int) + chunk);
            assert forall|p: int|
                0 <= p < d.len() && !(first * SECTOR_SIZE <= p < (first + n) * SECTOR_SIZE) implies #[trigger] d1[p]
                == d[p] by {
                assert(d1[p] == d0[p]);
            }
        }
    }
}

/// Writing sectors when every byte is written changes nothing.
proof fn lemma_sectors_done(d: Seq<u8>, first: int, data: Seq<u8>, size: nat, n: nat)
    requires
        0 <= first,
        (first + n) * SECTOR_SIZE <= d.len(),
        size <= data.len(),
    ensures
        sectors_written(d, first, data, size, size, n) == (d, size, n > 0),
    decreases n,
{
    if n > 0 {
        lemma_sectors_done(d, first, data, size, (n - 1) as nat);
        if n == 1 {
            let chunk = data.subrange(size as int, size as int);
            assert(with_bytes(d, first * SECTOR_SIZE, chunk) =~= d);
        }
    }
}

/// Writing a file when every byte is written changes nothing.
proof fn lemma_written_done(d: Seq<u8>, fs: FileSystemInfo, c: u32, data: Seq<u8>, size: nat, k: nat)
    requires
        cluster_on_disk(d, fs, c),
        size <= data.len(),
    ensures
        file_written(d, fs, c, data, size, size, k) == Some((d, c)),
    decreases k,
{
    if k > 0 {
        lemma_sectors_done(d, cluster_sector(fs, c), data, size, fs.sectors_per_cluster as nat);
        lemma_written_done(d, fs, c, data, size, (k - 1) as nat);
    }
}

/// The sectors of two clusters do not overlap.
proof fn lemma_clusters_apart(fs: FileSystemInfo, x: u32, y: u32, p: int)
    requires
        2 <= x,
        2 <= y,
        x != y,
        fs.sectors_per_cluster > 0,
    ensures
        !(in_cluster(fs, x, p) && in_cluster(fs, y, p)),
{
    let spc = fs.sectors_per_cluster as int;
    if x < y {
        assert((x - 2) * spc + spc <= (y - 2) * spc) by (nonlinear_arith)
            requires
                x < y,
                spc > 0,
        ;
    } else {
        assert((y - 2) * spc + spc <= (x - 2) * spc) by (nonlinear_arith)
            requires
                y < x,
                spc > 0,
        ;
    }
}

/// The FAT entry of a cluster lies before the sectors of every cluster, and
/// the FAT entries of two clusters do not overlap.
proof fn lemma_slot_apart(fs: FileSystemInfo, x: u32, y: u32, p: int)
    requires
        fs.bytes_per_sector == SECTOR_SIZE,
        fs.total_clusters * 4 <= u32::MAX,
        fat_before_data(fs),
        x < fs.total_clusters,
        y < fs.total_clusters,
        2 <= y,
    ensures
        in_slot(fs, x, p) ==> !in_cluster(fs, y, p),
        x != y ==> !(in_slot(fs, x, p) && in_slot(fs, y, p)),
        in_slot(fs, x, p) ==> 0 <= p < fs.first_fat_sector * SECTOR_SIZE + fs.total_clusters * 4,
{
    lemma_fat_pos(fs, x);
    lemma_fat_pos(fs, y);
    let spc = fs.sectors_per_cluster as int;
    assert((y - 2) * spc >= 0) by (nonlinear_arith)
        requires
            y >= 2,
            spc >= 0,
    ;
}

/// Disks that agree on the FAT entry of `c` give it the same value.
proof fn lemma_same_entry(a: Seq<u8>, b: Seq<u8>, fs: FileSystemInfo, c: u32)
    requires
        forall|p: int| in_slot(fs, c, p) ==> a[p] == b[p],
    ensures
        fat_entry(a, fs, c) == fat_entry(b, fs, c),
{
    let pos = fat_pos(fs, c);
    assert(in_slot(fs, c, pos) && in_slot(fs, c, pos + 1) && in_slot(fs, c, pos + 2) && in_slot(fs, c, pos + 3));
    assert(le32(a, pos) == le32(b, pos));
}

/// Writing the FAT entry of `c` changes the bytes of that entry alone.
proof fn lemma_entry_frame(d: Seq<u8>, fs: FileSystemInfo, c: u32, next: u32, p: int)
    requires
        layout_fits(fs, d.len() as int),
        c < fs.total_clusters,
        0 <= p < d.len(),
        !in_slot(fs, c, p),
    ensures
        with_fat_entry(d, fs, c, next)[p] == d[p],
{
    lemma_with_u32_len(d, fs, c, next);
    lemma_fat_pos(fs, c);
}


/// The clusters filled by a write: the first cluster `c`, filled on `d1`
/// with the next bytes of `data`, linked on `dx` to `nx`, the first of the
/// clusters `rest` that the rest of the write fills on the way to `dk`.
proof fn lemma_prepend(
    d: Seq<u8>,
    d1: Seq<u8>,
    dx: Seq<u8>,
    dk: Seq<u8>,
    fs: FileSystemInfo,
    c: u32,
    nx: u32,
    rest: Seq<u32>,
    data: Seq<u8>,
    size: nat,
    w: nat,
    w1: nat,
)
    requires
        layout_fits(fs, d.len() as int),
        fat_before_data(fs),
        d1.len() == d.len(),
        dx.len() == d.len(),
        dk.len() == d.len(),
        cluster_on_disk(d, fs, c),
        w1 == w + fs.sectors_per_cluster * SECTOR_SIZE,
        w1 < size <= data.len(),
        d1.subrange(
            cluster_sector(fs, c) * SECTOR_SIZE,
            cluster_sector(fs, c) * SECTOR_SIZE + (w1 - w),
        ) == data.subrange(w as int, w1 as int),
        forall|p: int| 0 <= p < d.len() && !in_cluster(fs, c, p) ==> #[trigger] d1[p] == d[p],
        forall|p: int| 0 <= p < d.len() && !in_slot(fs, c, p) && !in_slot(fs, nx, p) ==> #[trigger] dx[p] == d1[p],
        fat_entry(dx, fs, c) == nx,
        (seq![c] + rest).no_duplicates(),
        rest.len() > 0,
        rest[0] == nx,
        size - w1 <= rest.len() * (fs.sectors_per_cluster * SECTOR_SIZE),
        (rest.len() - 1) * (fs.sectors_per_cluster * SECTOR_SIZE) < size - w1,
        forall|i: int| 0 <= i < rest.len() ==> cluster_on_disk(dx, fs, #[trigger] rest[i]),
        forall|i: int| 0 <= i < rest.len() - 1 ==> fat_entry(dk, fs, #[trigger] rest[i]) == rest[i + 1],
        forall|i: int|
            0 <= i < rest.len() ==> filled_with(
                dk,
                fs,
                #[trigger] rest[i],
                data,
                size,
                w1 + i * (fs.sectors_per_cluster * SECTOR_SIZE),
            ),
        forall|p: int| 0 <= p < d.len() && untouched(fs, rest, p) ==> #[trigger] dk[p] == dx[p],
    ensures
        ({
            let cs = seq![c] + rest;
            let csb = fs.sectors_per_cluster * SECTOR_SIZE;
            &&& size - w <= cs.len() * csb
            &&& (cs.len() - 1) * csb < size - w
            &&& forall|i: int| 0 <= i < cs.len() ==> cluster_on_disk(d, fs, #[trigger] cs[i])
            &&& forall|i: int| 0 <= i < cs.len() - 1 ==> fat_entry(dk, fs, #[trigger] cs[i]) == cs[i + 1]
            &&& forall|i: int| 0 <= i < cs.len() ==> filled_with(dk, fs, #[trigger] cs[i], data, size, w + i * csb)
            &&& forall|p: int| 0 <= p < d.len() && untouched(fs, cs, p) ==> #[trigger] dk[p] == d[p]
        }),
{
    let cs = seq![c] + rest;
    let csb = fs.sectors_per_cluster * SECTOR_SIZE;
    let start = cluster_sector(fs, c) * SECTOR_SIZE;
    assert forall|j: int| 0 <= j < rest.len() implies #[trigger] rest[j] != c by {
        assert(cs[0] == c && cs[j + 1] == rest[j]);
    }
    assert forall|j: int| 0 <= j < rest.len() implies 2 <= #[trigger] rest[j] < fs.total_clusters by {
        assert(cluster_on_disk(dx, fs, rest[j]));
    }
    assert(fs.first_data_sector * SECTOR_SIZE <= start) by {
        let spc = fs.sectors_per_cluster as int;
        assert((c - 2) * spc >= 0) by (nonlinear_arith)
            requires
                c >= 2,
                spc >= 0,
        ;
    }
    // The FAT entry of `c` is left alone by the rest of the write.
    assert forall|p: int| in_slot(fs, c, p) implies dk[p] == dx[p] by {
        assert forall|j: int| 0 <= j < rest.len() implies !in_cluster(fs, #[trigger] rest[j], p) && !in_slot(
            fs,
            rest[j],
            p,
        ) by {
            lemma_slot_apart(fs, c, rest[j], p);
        }
        lemma_slot_apart(fs, c, c, p);
    }
    lemma_same_entry(dk, dx, fs, c);
    // So are the sectors of `c`.
    assert forall|p: int| in_cluster(fs, c, p) implies #[trigger] dk[p] == d1[p] by {
        assert forall|j: int| 0 <= j < rest.len() implies !in_cluster(fs, #[trigger] rest[j], p) && !in_slot(
            fs,
            rest[j],
            p,
        ) by {
            lemma_clusters_apart(fs, c, rest[j], p);
            lemma_slot_apart(fs, rest[j], c, p);
        }
        lemma_slot_apart(fs, c, c, p);
        lemma_slot_apart(fs, nx, c, p);
    }
    assert(dk.subrange(start, start + csb) =~= d1.subrange(start, start + csb)) by {
        assert forall|q: int| 0 <= q < csb implies #[trigger] dk.subrange(start, start + csb)[q] == d1.subrange(
            start,
            start + csb,
        )[q] by {
            assert(in_cluster(fs, c, start + q));
        }
    }
    assert(filled_with(dk, fs, c, data, size, w as int));
    assert forall|i: int| 0 <= i < cs.len() implies filled_with(dk, fs, #[trigger] cs[i], data, size, w + i * csb) by {
        if i > 0 {
            assert(cs[i] == rest[i - 1]);
            assert(w + i * csb == w1 + (i - 1) * csb) by (nonlinear_arith)
                requires
                    w1 == w + csb,
            ;
        }
    }
    assert forall|i: int| 0 <= i < cs.len() - 1 implies fat_entry(dk, fs, #[trigger] cs[i]) == cs[i + 1] by {
        if i > 0 {
            assert(cs[i] == rest[i - 1] && cs[i + 1] == rest[i]);
        }
    }
    assert forall|i: int| 0 <= i < cs.len() implies cluster_on_disk(d, fs, #[trigger] cs[i]) by {
        if i > 0 {
            assert(cs[i] == rest[i - 1]);
            assert(cluster_on_disk(dx, fs, rest[i - 1]));
        }
    }
    assert(cs.len() * csb == csb + rest.len() * csb) by (nonlinear_arith)
        requires
            cs.len() == rest.len() + 1,
    ;
    assert((cs.len() - 1) * csb == csb + (rest.len() - 1) * csb) by (nonlinear_arith)
        requires
            cs.len() == rest.len() + 1,
    ;
    assert forall|p: int| 0 <= p < d.len() && untouched(fs, cs, p) implies #[trigger] dk[p] == d[p] by {
        assert forall|j: int| 0 <= j < rest.len() implies !in_cluster(fs, #[trigger] rest[j], p) && !in_slot(
            fs,
            rest[j],
            p,
        ) by {
            assert(cs[j + 1] == rest[j]);
        }
        assert(cs[0] == c && cs[1] == nx);
    }
}

/// What writing a file from `c` does, `w` of its `size` bytes written and
/// `k` clusters to go, where the clusters it fills are all different: each
/// of them is on the disk, holds its share of the bytes and is linked in
/// the FAT to the next, the last is the one the write ends at, and nothing
/// outside their sectors and FAT entries changes.
#[verifier::rlimit(60)]
#[verifier::spinoff_prover]
proof fn lemma_filled(d: Seq<u8>, fs: FileSystemInfo, c: u32, data: Seq<u8>, size: nat, w: nat, k: nat)
    requires
        layout_fits(fs, d.len() as int),
        fat_before_data(fs),
        fs.total_clusters <= CLUSTER_LAST,
        w < size <= data.len(),
        k * (fs.sectors_per_cluster * SECTOR_SIZE) >= size - w,
        file_written(d, fs, c, data, size, w, k) is Some,
        filled_clusters(d, fs, c, data, size, w, k).no_duplicates(),
    ensures
        ({
            let cs = filled_clusters(d, fs, c, data, size, w, k);
            let r = file_written(d, fs, c, data, size, w, k)->0;
            let csb = fs.sectors_per_cluster * SECTOR_SIZE;
            &&& r.0.len() == d.len()
            &&& cs.len() > 0 && cs[0] == c && cs.last() == r.1
            &&& size - w <= cs.len() * csb
            &&& (cs.len() - 1) * csb < size - w
            &&& forall|i: int| 0 <= i < cs.len() ==> cluster_on_disk(d, fs, #[trigger] cs[i])
            &&& forall|i: int| 0 <= i < cs.len() - 1 ==> fat_entry(r.0, fs, #[trigger] cs[i]) == cs[i + 1]
            &&& forall|i: int| 0 <= i < cs.len() ==> filled_with(r.0, fs, #[trigger] cs[i], data, size, w + i * csb)
            &&& forall|p: int| 0 <= p < d.len() && untouched(fs, cs, p) ==> #[trigger] r.0[p] == d[p]
        }),
    decreases k,
{
    let csb = fs.sectors_per_cluster * SECTOR_SIZE;
    let first = cluster_sector(fs, c);
    let spc = fs.sectors_per_cluster as nat;
    assert(k > 0) by {
        if k == 0 {
            assert(k * csb == 0) by (nonlinear_arith)
                requires
                    k == 0,
            ;
        }
    }
    assert(cluster_on_disk(d, fs, c));
    lemma_sectors_at(d, first, data, size, w, spc);
    let (d1, w1, stop) = sectors_written(d, first, data, size, w, spc);
    assert(spc * SECTOR_SIZE == csb);
    let cs = filled_clusters(d, fs, c, data, size, w, k);
    if w1 >= size {
        lemma_written_done(d1, fs, c, data, size, (k - 1) as nat);
        assert(cs =~= seq![c]);
        assert forall|p: int| 0 <= p < d.len() && untouched(fs, cs, p) implies #[trigger] d1[p] == d[p] by {
            assert(cs[0] == c);
        }
        assert(filled_with(d1, fs, c, data, size, w as int));
        assert forall|i: int| 0 <= i < cs.len() implies filled_with(d1, fs, #[trigger] cs[i], data, size, w + i * csb) by {
            assert(i == 0);
        }
    } else {
        assert((k - 1) * csb >= size - w1) by (nonlinear_arith)
            requires
                k * csb >= size - w,
                w1 == w + csb,
                k > 0,
        ;
        let next = fat_entry(d1, fs, c);
        if next == CHAIN_END {
            lemma_first_free_range(d1, fs, fs.root_dir_cluster as int, fs.total_clusters as int);
            let c2 = first_free_cluster(d1, fs, fs.root_dir_cluster as int, fs.total_clusters as int)->0;
            let da = with_fat_entry(d1, fs, c2, CLUSTER_LAST);
            let d2 = with_fat_entry(da, fs, c, c2);
            lemma_with_u32_len(d1, fs, c2, CLUSTER_LAST);
            lemma_with_u32_len(da, fs, c, c2);
            let rest = filled_clusters(d2, fs, c2, data, size, w1, (k - 1) as nat);
            assert(cs == seq![c] + rest);
            assert forall|i: int, j: int| 0 <= i < j < rest.len() implies rest[i] != rest[j] by {
                assert(cs[i + 1] == rest[i] && cs[j + 1] == rest[j]);
            }
            lemma_filled(d2, fs, c2, data, size, w1, (k - 1) as nat);
            let r = file_written(d2, fs, c2, data, size, w1, (k - 1) as nat)->0;
            assert forall|p: int| 0 <= p < d.len() && !in_slot(fs, c, p) && !in_slot(fs, c2, p) implies #[trigger] d2[p]
                == d1[p] by {
                lemma_entry_frame(d1, fs, c2, CLUSTER_LAST, p);
                lemma_entry_frame(da, fs, c, c2, p);
            }
            lemma_fat_entry_write(da, fs, c, c2, c);
            assert(c2 & 0x0FFFFFFF == c2) by {
                vstd::bits::lemma_u32_low_bits_mask_is_mod(c2, 28);
                vstd::bits::lemma_low_bits_mask_values();
                vstd::arithmetic::power2::lemma2_to64();
            }
            lemma_prepend(d, d1, d2, r.0, fs, c, c2, rest, data, size, w, w1);
        } else {
            let rest = filled_clusters(d1, fs, next, data, size, w1, (k - 1) as nat);
            assert(cs == seq![c] + rest);
            assert forall|i: int, j: int| 0 <= i < j < rest.len() implies rest[i] != rest[j] by {
                assert(cs[i + 1] == rest[i] && cs[j + 1] == rest[j]);
            }
            lemma_filled(d1, fs, next, data, size, w1, (k - 1) as nat);
            let r = file_written(d1, fs, next, data, size, w1, (k - 1) as nat)->0;
            lemma_prepend(d, d1, d1, r.0, fs, c, next, rest, data, size, w, w1);
        }
    }
}


/// Clusters that are all different and numbered below `n` are at most `n`.
proof fn lemma_distinct_bound(cs: Seq<u32>, n: u32)
    requires
        cs.no_duplicates(),
        forall|i: int| 0 <= i < cs.len() ==> #[trigger] cs[i] < n,
    ensures
        cs.len() <= n,
{
    let ci = cs.map_values(|x: u32| x as int);
    assert forall|i: int, j: int| 0 <= i < j < ci.len() implies ci[i] != ci[j] by {
        assert(cs[i] != cs[j]);
    }
    assert(ci.no_duplicates());
    let range = vstd::set_lib::set_int_range(0, n as int);
    assert forall|x: int| ci.to_set().contains(x) implies range.contains(x) by {
        let i = choose|i: int| 0 <= i < ci.len() && ci[i] == x;
        assert(cs[i] < n);
    }
    vstd::set_lib::lemma_int_range(0, n as int);
    vstd::set_lib::lemma_len_subset(ci.to_set(), range);
    ci.unique_seq_to_set();
}

/// The bytes of clusters, one after the other, are as many as the clusters
/// hold, and byte `j` of the `i`th cluster is the one at that place on disk.
proof fn lemma_clusters_bytes_at(x: Seq<u8>, fs: FileSystemInfo, cs: Seq<u32>, i: int, j: int)
    requires
        forall|q: int|
            0 <= q < cs.len() ==> 0 <= cluster_sector(fs, #[trigger] cs[q]) && (cluster_sector(fs, cs[q])
                + fs.sectors_per_cluster) * SECTOR_SIZE <= x.len(),
        0 <= i < cs.len(),
        0 <= j < fs.sectors_per_cluster * SECTOR_SIZE,
    ensures
        clusters_bytes(x, fs, cs).len() == cs.len() * (fs.sectors_per_cluster * SECTOR_SIZE),
        clusters_bytes(x, fs, cs)[i * (fs.sectors_per_cluster * SECTOR_SIZE) + j] == x[cluster_sector(fs, cs[i])
            * SECTOR_SIZE + j],
    decreases cs.len(),
{
    let csb = fs.sectors_per_cluster * SECTOR_SIZE;
    let pre = cs.drop_last();
    let n = cs.len() as int;
    assert(cs.last() == cs[n - 1]);
    let plen = if pre.len() > 0 {
        assert forall|q: int| 0 <= q < pre.len() implies 0 <= cluster_sector(fs, #[trigger] pre[q]) && (
        cluster_sector(fs, pre[q]) + fs.sectors_per_cluster) * SECTOR_SIZE <= x.len() by {
            assert(pre[q] == cs[q]);
        }
        if i < n - 1 {
            lemma_clusters_bytes_at(x, fs, pre, i, j);
            assert(pre[i] == cs[i]);
        } else {
            lemma_clusters_bytes_at(x, fs, pre, 0, 0);
        }
        pre.len() * csb
    } else {
        0
    };
    assert(clusters_bytes(x, fs, pre).len() == plen);
    assert(plen == (n - 1) * csb) by (nonlinear_arith)
        requires
            pre.len() == n - 1,
            plen == if pre.len() > 0 { pre.len() * csb } else { 0 },
    ;
    assert(n * csb == (n - 1) * csb + csb) by (nonlinear_arith);
    if i < n - 1 {
        assert(i * csb + j < (n - 1) * csb) by (nonlinear_arith)
            requires
                0 <= i < n - 1,
                0 <= j < csb,
        ;
    }
}

/// Following the chain of a file from its `i`th cluster, where each
/// cluster is linked to the next and the last ends the chain, gives the
/// clusters from there on.
proof fn lemma_chain_follow(x: Seq<u8>, fs: FileSystemInfo, cs: Seq<u32>, i: int, fuel: nat)
    requires
        0 <= i < cs.len(),
        fuel >= cs.len() - i,
        forall|q: int| 0 <= q < cs.len() ==> cluster_on_disk(x, fs, #[trigger] cs[q]),
        forall|q: int| 0 <= q < cs.len() ==> #[trigger] cs[q] < CLUSTER_LAST,
        forall|q: int| 0 <= q < cs.len() - 1 ==> fat_entry(x, fs, #[trigger] cs[q]) == cs[q + 1],
        fat_entry(x, fs, cs.last()) >= CLUSTER_LAST,
    ensures
        file_chain(x, fs, cs[i], fuel) == Some(cs.subrange(i, cs.len() as int)),
    decreases cs.len() - i,
{
    assert(cluster_on_disk(x, fs, cs[i]) && cs[i] < CLUSTER_LAST);
    if i == cs.len() - 1 {
        assert(file_chain(x, fs, fat_entry(x, fs, cs[i]), (fuel - 1) as nat) == Some(Seq::<u32>::empty()));
        assert(seq![cs[i]] + Seq::<u32>::empty() =~= cs.subrange(i, cs.len() as int));
    } else {
        lemma_chain_follow(x, fs, cs, i + 1, (fuel - 1) as nat);
        assert(seq![cs[i]] + cs.subrange(i + 1, cs.len() as int) =~= cs.subrange(i, cs.len() as int));
    }
}

/// The number of whole clusters that `size` bytes fill holds them all.
proof fn lemma_clusters_needed(size: usize, cs: u32)
    requires
        0 < cs,
        size <= u32::MAX,
        (size as u32) + cs <= u32::MAX,
    ensures
        clusters_needed(size, cs) * cs >= size,
{
    let x = size + cs - 1;
    assert((size as u32) as int == size as int);
    vstd::arithmetic::div_mod::lemma_fundamental_div_mod(x, cs as int);
    vstd::arithmetic::div_mod::lemma_mod_bound(x, cs as int);
    assert(clusters_needed(size, cs) == x / (cs as int));
    assert((x / (cs as int)) * cs >= size) by (nonlinear_arith)
        requires
            x == cs * (x / (cs as int)) + x % (cs as int),
            x % (cs as int) < cs,
            x == size + cs - 1,
    ;
}

/// Ending the chain at its last cluster and writing the entry of the file
/// outside the clusters and their FAT entries keeps the links of the chain
/// and the bytes of the clusters, and ends the chain.
proof fn lemma_end_chain(dk: Seq<u8>, fs: FileSystemInfo, cs: Seq<u32>, epos: int, eb: Seq<u8>)
    requires
        layout_fits(fs, dk.len() as int),
        fat_before_data(fs),
        fs.total_clusters <= CLUSTER_LAST,
        cs.len() > 0,
        cs.no_duplicates(),
        0 <= epos,
        epos + eb.len() <= dk.len(),
        forall|q: int| 0 <= q < cs.len() ==> cluster_on_disk(dk, fs, #[trigger] cs[q]),
        forall|q: int| 0 <= q < cs.len() - 1 ==> fat_entry(dk, fs, #[trigger] cs[q]) == cs[q + 1],
        forall|p: int| epos <= p < epos + eb.len() ==> untouched(fs, cs, p),
    ensures
        ({
            let written = with_bytes(with_fat_entry(dk, fs, cs.last(), CHAIN_END), epos, eb);
            &&& written.len() == dk.len()
            &&& forall|q: int| 0 <= q < cs.len() - 1 ==> fat_entry(written, fs, #[trigger] cs[q]) == cs[q + 1]
            &&& fat_entry(written, fs, cs.last()) == CHAIN_END
            &&& forall|i: int, p: int| 0 <= i < cs.len() && #[trigger] in_cluster(fs, cs[i], p) ==> 0 <= p < dk.len() && written[p] == dk[p]
        }),
{
    let n = cs.len() as int;
    let last = cs.last();
    assert(cs[n - 1] == last);
    assert(cluster_on_disk(dk, fs, cs[n - 1]));
    let de = with_fat_entry(dk, fs, last, CHAIN_END);
    lemma_with_u32_len(dk, fs, last, CHAIN_END);
    let written = with_bytes(de, epos, eb);
    assert(written.len() == dk.len());
    assert forall|q: int| 0 <= q < dk.len() && !(epos <= q < epos + eb.len()) implies #[trigger] written[q] == de[q] by {}
    assert forall|i: int, q: int| 0 <= i < n && in_slot(fs, cs[i], q) implies !(epos <= q < epos + eb.len()) && 0 <= q
        < dk.len() by {
        assert(cluster_on_disk(dk, fs, cs[i]));
        if epos <= q < epos + eb.len() {
            assert(untouched(fs, cs, q));
            assert(!in_slot(fs, cs[i], q));
        }
        lemma_slot_apart(fs, cs[i], cs[i], q);
        assert(fs.first_data_sector * SECTOR_SIZE <= cluster_sector(fs, cs[i]) * SECTOR_SIZE) by {
            let spc = fs.sectors_per_cluster as int;
            assert((cs[i] - 2) * spc >= 0) by (nonlinear_arith)
                requires
                    cs[i] >= 2,
                    spc >= 0,
            ;
        }
    }
    assert forall|i: int| 0 <= i < n - 1 implies fat_entry(written, fs, #[trigger] cs[i]) == cs[i + 1] by {
        assert(cs[i] != cs[n - 1]);
        assert(cluster_on_disk(dk, fs, cs[i]));
        assert forall|q: int| in_slot(fs, cs[i], q) implies written[q] == de[q] by {}
        lemma_same_entry(written, de, fs, cs[i]);
        lemma_fat_entry_write(dk, fs, last, CHAIN_END, cs[i]);
    }
    assert(fat_entry(written, fs, last) == CHAIN_END) by {
        assert forall|q: int| in_slot(fs, last, q) implies written[q] == de[q] by {
            assert(in_slot(fs, cs[n - 1], q));
        }
        lemma_same_entry(written, de, fs, last);
        lemma_fat_entry_write(dk, fs, last, CHAIN_END, last);
        assert(CHAIN_END & 0x0FFFFFFF == CHAIN_END) by {
            vstd::bits::lemma_u32_low_bits_mask_is_mod(CHAIN_END, 28);
            vstd::bits::lemma_low_bits_mask_values();
            vstd::arithmetic::power2::lemma2_to64();
        }
    }
    assert forall|i: int, p: int| 0 <= i < n && #[trigger] in_cluster(fs, cs[i], p) implies 0 <= p < dk.len() && written[p] == dk[p] by {
        assert(cluster_on_disk(dk, fs, cs[i]));
        assert(!(epos <= p < epos + eb.len())) by {
            if epos <= p < epos + eb.len() {
                assert(untouched(fs, cs, p));
            }
        }
        lemma_slot_apart(fs, last, cs[i], p);
        lemma_entry_frame(dk, fs, last, CHAIN_END, p);
    }
}

/// The first `size` bytes of the clusters `cs` are those of `data` when
/// each cluster holds its share of them.
proof fn lemma_read_filled(x: Seq<u8>, fs: FileSystemInfo, cs: Seq<u32>, data: Seq<u8>, size: nat)
    requires
        fs.sectors_per_cluster > 0,
        size <= data.len(),
        size <= cs.len() * (fs.sectors_per_cluster * SECTOR_SIZE),
        forall|q: int| 0 <= q < cs.len() ==> cluster_on_disk(x, fs, #[trigger] cs[q]),
        forall|i: int|
            0 <= i < cs.len() ==> filled_with(
                x,
                fs,
                #[trigger] cs[i],
                data,
                size,
                0 + i * (fs.sectors_per_cluster * SECTOR_SIZE),
            ),
    ensures
        clusters_bytes(x, fs, cs).subrange(0, size as int) == data.subrange(0, size as int),
{
    let csb = fs.sectors_per_cluster * SECTOR_SIZE;
    let n = cs.len() as int;
    assert forall|q: int|
        0 <= q < n implies 0 <= cluster_sector(fs, #[trigger] cs[q]) && (cluster_sector(fs, cs[q])
            + fs.sectors_per_cluster) * SECTOR_SIZE <= x.len() by {
        assert(cluster_on_disk(x, fs, cs[q]));
    }
    assert forall|t: int| 0 <= t < size implies #[trigger] clusters_bytes(x, fs, cs)[t] == data[t] by {
        let i = t / csb;
        let j = t % csb;
        vstd::arithmetic::div_mod::lemma_fundamental_div_mod(t, csb);
        vstd::arithmetic::div_mod::lemma_mod_bound(t, csb);
        assert(t == i * csb + j) by (nonlinear_arith)
            requires
                t == csb * (t / csb) + t % csb,
                i == t / csb,
                j == t % csb,
        ;
        assert(0 <= i) by (nonlinear_arith)
            requires
                0 <= t,
                0 < csb,
                i == t / csb,
        ;
        assert(i < n) by (nonlinear_arith)
            requires
                t == i * csb + j,
                0 <= j < csb,
                0 <= t < size,
                size <= n * csb,
        ;
        lemma_clusters_bytes_at(x, fs, cs, i, j);
        let start = cluster_sector(fs, cs[i]) * SECTOR_SIZE;
        assert(filled_with(x, fs, cs[i], data, size, 0 + i * csb));
        let m = if size - i * csb < csb { size - i * csb } else { csb };
        assert(j < m);
        assert(x.subrange(start, start + m)[j] == data.subrange(i * csb, i * csb + m)[j]);
    }
    assert(clusters_bytes(x, fs, cs).len() >= size) by {
        if n > 0 {
            lemma_clusters_bytes_at(x, fs, cs, 0, 0);
        }
    }
    assert(clusters_bytes(x, fs, cs).subrange(0, size as int) =~= data.subrange(0, size as int));
}

/// Clusters hold the same bytes on a disk that agrees with `a` on their
/// sectors.
proof fn lemma_filled_kept(a: Seq<u8>, b: Seq<u8>, fs: FileSystemInfo, cs: Seq<u32>, data: Seq<u8>, size: nat)
    requires
        forall|i: int, p: int| 0 <= i < cs.len() && #[trigger] in_cluster(fs, cs[i], p) ==> 0 <= p < a.len() && b[p] == a[p],
        forall|i: int|
            0 <= i < cs.len() ==> filled_with(
                a,
                fs,
                #[trigger] cs[i],
                data,
                size,
                0 + i * (fs.sectors_per_cluster * SECTOR_SIZE),
            ),
        forall|i: int| 0 <= i < cs.len() ==> cluster_on_disk(a, fs, #[trigger] cs[i]),
        a.len() == b.len(),
        (cs.len() - 1) * (fs.sectors_per_cluster * SECTOR_SIZE) < size,
    ensures
        forall|i: int|
            0 <= i < cs.len() ==> filled_with(
                b,
                fs,
                #[trigger] cs[i],
                data,
                size,
                0 + i * (fs.sectors_per_cluster * SECTOR_SIZE),
            ),
{
    let csb = fs.sectors_per_cluster * SECTOR_SIZE;
    assert forall|i: int| 0 <= i < cs.len() implies filled_with(b, fs, #[trigger] cs[i], data, size, 0 + i * csb) by {
        assert(filled_with(a, fs, cs[i], data, size, 0 + i * csb));
        assert(cluster_on_disk(a, fs, cs[i]));
        let start = cluster_sector(fs, cs[i]) * SECTOR_SIZE;
        let m = if size - i * csb < csb { size - i * csb } else { csb };
        assert(i * csb <= (cs.len() - 1) * csb) by (nonlinear_arith)
            requires
                0 <= i < cs.len(),
                csb >= 0,
        ;
        assert forall|q: int| 0 <= q < m implies #[trigger] b.subrange(start, start + m)[q] == a.subrange(
            start,
            start + m,
        )[q] by {
            assert(in_cluster(fs, cs[i], start + q));
        }
        assert(b.subrange(start, start + m) =~= a.subrange(start, start + m));
    }
}

/// The chain and the bytes that a write leaves, from what
/// [`lemma_filled`] says of the clusters `cs` it filled on the way to `dk`.
proof fn lemma_read_back(
    d: Seq<u8>,
    dk: Seq<u8>,
    fs: FileSystemInfo,
    cs: Seq<u32>,
    data: Seq<u8>,
    size: nat,
    epos: int,
    eb: Seq<u8>,
)
    requires
        layout_fits(fs, d.len() as int),
        fat_before_data(fs),
        fs.total_clusters <= CLUSTER_LAST,
        dk.len() == d.len(),
        size <= data.len(),
        cs.len() > 0,
        cs.no_duplicates(),
        size <= cs.len() * (fs.sectors_per_cluster * SECTOR_SIZE),
        (cs.len() - 1) * (fs.sectors_per_cluster * SECTOR_SIZE) < size,
        forall|i: int| 0 <= i < cs.len() ==> cluster_on_disk(d, fs, #[trigger] cs[i]),
        forall|i: int| 0 <= i < cs.len() - 1 ==> fat_entry(dk, fs, #[trigger] cs[i]) == cs[i + 1],
        forall|i: int|
            0 <= i < cs.len() ==> filled_with(
                dk,
                fs,
                #[trigger] cs[i],
                data,
                size,
                0 + i * (fs.sectors_per_cluster * SECTOR_SIZE),
            ),
        0 <= epos,
        epos + eb.len() <= d.len(),
        forall|p: int| epos <= p < epos + eb.len() ==> untouched(fs, cs, p),
    ensures
        ({
            let written = with_bytes(with_fat_entry(dk, fs, cs.last(), CHAIN_END), epos, eb);
            &&& file_chain(written, fs, cs[0], fs.total_clusters as nat) == Some(cs)
            &&& clusters_bytes(written, fs, cs).subrange(0, size as int) == data.subrange(0, size as int)
        }),
{
    let csb = fs.sectors_per_cluster * SECTOR_SIZE;
    let n = cs.len() as int;
    assert forall|q: int| 0 <= q < n implies cluster_on_disk(dk, fs, #[trigger] cs[q]) by {
        assert(cluster_on_disk(d, fs, cs[q]));
    }
    lemma_end_chain(dk, fs, cs, epos, eb);
    let written = with_bytes(with_fat_entry(dk, fs, cs.last(), CHAIN_END), epos, eb);
    assert forall|q: int| 0 <= q < n implies #[trigger] cs[q] < fs.total_clusters && cluster_on_disk(
        written,
        fs,
        cs[q],
    ) by {
        assert(cluster_on_disk(d, fs, cs[q]));
    }
    assert forall|q: int| 0 <= q < n implies #[trigger] cs[q] < CLUSTER_LAST by {
        assert(cs[q] < fs.total_clusters);
    }
    lemma_distinct_bound(cs, fs.total_clusters);
    lemma_chain_follow(written, fs, cs, 0, fs.total_clusters as nat);
    assert(cs.subrange(0, n) =~= cs);
    lemma_filled_kept(dk, written, fs, cs, data, size);
    lemma_read_filled(written, fs, cs, data, size);
}

/// Reading back a file gives what was written: after
/// [`FatDriver::write_file`](crate::fs::fat::fat_driver::FatDriver) writes
/// the first `size` bytes of `data` into the file of the entry `e` (found at
/// `offset` in `sector`), the chain of the file is the clusters the write
/// filled ([`filled_clusters`]), and their bytes begin with those of `data`.
/// This holds where the write is done (the disk holds the clusters it needs,
/// as `write_file` asks), the clusters it fills are all different (a chain
/// that loops back would be overwritten), the FAT lies before the data
/// area, cluster numbers fit in 28 bits, a cluster is `cluster_size` bytes,
/// and the entry lies outside the clusters filled and their FAT entries.
#[verifier::rlimit(60)]
#[verifier::spinoff_prover]
pub proof fn lemma_write_then_read(
    d: Seq<u8>,
    fs: FileSystemInfo,
    e: DirectoryEntry,
    sector: u32,
    offset: u32,
    data: Seq<u8>,
    size: usize,
)
    requires
        layout_fits(fs, d.len() as int),
        fat_before_data(fs),
        fs.total_clusters <= CLUSTER_LAST,
        fs.cluster_size == fs.sectors_per_cluster * SECTOR_SIZE,
        0 < size <= data.len(),
        size <= u32::MAX,
        (size as u32) + fs.cluster_size <= u32::MAX,
        (sector + 1) * SECTOR_SIZE <= d.len(),
        offset + 32 <= SECTOR_SIZE,
        file_written(d, fs, entry_cluster(e), data, size as nat, 0, clusters_needed(size, fs.cluster_size)) is Some,
        filled_clusters(
            d,
            fs,
            entry_cluster(e),
            data,
            size as nat,
            0,
            clusters_needed(size, fs.cluster_size),
        ).no_duplicates(),
        forall|p: int|
            sector * SECTOR_SIZE + offset <= p < sector * SECTOR_SIZE + offset + 32 ==> untouched(
                fs,
                filled_clusters(d, fs, entry_cluster(e), data, size as nat, 0, clusters_needed(size, fs.cluster_size)),
                p,
            ),
    ensures
        ({
            let c = entry_cluster(e);
            let k = clusters_needed(size, fs.cluster_size);
            let cs = filled_clusters(d, fs, c, data, size as nat, 0, k);
            let p = file_written(d, fs, c, data, size as nat, 0, k)->0;
            let written = with_bytes(
                with_fat_entry(p.0, fs, p.1, CHAIN_END),
                sector * SECTOR_SIZE + offset,
                entry_bytes(DirectoryEntry { size: size as u32, ..e }),
            );
            &&& file_chain(written, fs, c, fs.total_clusters as nat) == Some(cs)
            &&& clusters_bytes(written, fs, cs).subrange(0, size as int) == data.subrange(0, size as int)
        }),
{
    let c = entry_cluster(e);
    let k = clusters_needed(size, fs.cluster_size);
    lemma_clusters_needed(size, fs.cluster_size);
    lemma_filled(d, fs, c, data, size as nat, 0, k);
    let cs = filled_clusters(d, fs, c, data, size as nat, 0, k);
    let p = file_written(d, fs, c, data, size as nat, 0, k)->0;
    let eb = entry_bytes(DirectoryEntry { size: size as u32, ..e });
    assert(eb.len() == 32);
    lemma_read_back(d, p.0, fs, cs, data, size as nat, sector * SECTOR_SIZE + offset, eb);
}

} // verus!
