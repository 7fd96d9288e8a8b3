use vstd::prelude::*;
use vstd::wrapping::usize_specs::{wrapping_add, wrapping_sub};
use crate::memory::addr::PhysAddr;
use crate::memory::allocation::region::Region;
use crate::memory::bitmap::{Bitmap, bit_of};
use crate::memory::layout::Layout;
use crate::memory::memory_descriptor::EFIMemoryDescriptor;
use crate::memory::{
    get_memory_size, largest_usable_index, largest_usable_memory_region, memory_size_upto,
    region_bytes, BootInfo, KERNEL_PHYS_START, PAGE_SIZE,
};

verus! {

/// `x` reduced modulo `2^usize::BITS`: the value a `usize` counter holds after
/// wrapping arithmetic has taken it to `x`.
pub open spec fn wrapped(x: int) -> int {
    x % (usize::MAX as int + 1)
}

/// Whether page `j` reads as taken: within the bitmap and its bit set.
pub open spec fn page_taken(bits: Seq<bool>, j: int) -> bool {
    0 <= j < bits.len() && bits[j]
}

/// The bits with every page of `lo..lo + n` that the bitmap covers set to `v`.
pub open spec fn set_range(bits: Seq<bool>, lo: int, n: int, v: bool) -> Seq<bool> {
    Seq::new(bits.len(), |j: int| if lo <= j < lo + n { v } else { bits[j] })
}

/// How many pages of `lo..lo + n` read as not taken.
pub open spec fn count_clear(bits: Seq<bool>, lo: int, n: nat) -> nat
    decreases n,
{
    if n == 0 {
        0
    } else {
        count_clear(bits, lo, (n - 1) as nat) + if page_taken(bits, lo + n - 1) {
            0nat
        } else {
            1nat
        }
    }
}

/// How many pages of `lo..lo + n` read as taken.
pub open spec fn count_set(bits: Seq<bool>, lo: int, n: nat) -> nat
    decreases n,
{
    if n == 0 {
        0
    } else {
        count_set(bits, lo, (n - 1) as nat) + if page_taken(bits, lo + n - 1) {
            1nat
        } else {
            0nat
        }
    }
}

/// The first page of `lo..lo + n` that reads as taken; `lo + n` when none does.
pub open spec fn first_set_in(bits: Seq<bool>, lo: int, n: nat) -> int
    decreases n,
{
    if n == 0 {
        lo
    } else if page_taken(bits, lo) {
        lo
    } else {
        first_set_in(bits, lo + 1, (n - 1) as nat)
    }
}

/// The first page at or after `from` whose bit is clear; `bits.len()` when none is.
pub open spec fn first_clear_from(bits: Seq<bool>, from: int) -> int
    decreases bits.len() - from,
{
    if from >= bits.len() {
        bits.len() as int
    } else if !bits[from] {
        from
    } else {
        first_clear_from(bits, from + 1)
    }
}

/// Whether the `n` pages from `s` are all within the bitmap and clear.
pub open spec fn run_clear(bits: Seq<bool>, s: int, n: int) -> bool {
    &&& s + n <= bits.len()
    &&& forall|j: int| s <= j < s + n ==> !#[trigger] bits[j]
}

proof fn lemma_wrapped_shift(x: int, c: int)
    requires
        0 <= c <= usize::MAX,
    ensures
        wrapped(wrapped(x) - c) == wrapped(x - c),
        wrapped(wrapped(x) + c) == wrapped(x + c),
{
    let m = usize::MAX as int + 1;
    vstd::arithmetic::div_mod::lemma_small_mod(c as nat, m as nat);
    vstd::arithmetic::div_mod::lemma_sub_mod_noop(x, c, m);
    vstd::arithmetic::div_mod::lemma_add_mod_noop(x, c, m);
}

proof fn lemma_wrapped_small(v: int)
    requires
        0 <= v <= usize::MAX,
    ensures
        wrapped(v) == v,
{
    vstd::arithmetic::div_mod::lemma_small_mod(v as nat, (usize::MAX as int + 1) as nat);
}

proof fn lemma_wrapping_ops(x: usize, y: usize)
    ensures
        wrapping_sub(x, y) as int == wrapped(x - y),
        wrapping_add(x, y) as int == wrapped(x + y),
{
    let m = usize::MAX as int + 1;
    if x - y < 0 {
        vstd::arithmetic::div_mod::lemma_mod_add_multiples_vanish(x - y, m);
        lemma_wrapped_small(x - y + m);
    } else {
        lemma_wrapped_small(x - y);
    }
    if x + y > usize::MAX {
        vstd::arithmetic::div_mod::lemma_mod_sub_multiples_vanish(x + y, m);
        lemma_wrapped_small(x + y - m);
    } else {
        lemma_wrapped_small(x + y);
    }
}

/// The free, reserved and used counts summed, as the counters' wrapping
/// arithmetic holds them.
pub open spec fn counted(v: PagesView) -> int {
    wrapped(v.free + v.reserved + v.used)
}

proof fn lemma_move_kept(f: int, r: int, u: int, x: int)
    ensures
        wrapped(wrapped(f - x) + wrapped(r + x) + u) == wrapped(f + r + u),
{
    let m = usize::MAX as int + 1;
    vstd::arithmetic::div_mod::lemma_add_mod_noop(f - x, r + x, m);
    vstd::arithmetic::div_mod::lemma_add_mod_noop((f - x) % m + (r + x) % m, u, m);
    vstd::arithmetic::div_mod::lemma_add_mod_noop(f + r, u, m);
    vstd::arithmetic::div_mod::lemma_mod_twice((f - x) % m + (r + x) % m, m);
}

/// Reserving, locking and giving back pages move bytes between the counts:
/// their sum stays.
pub proof fn lemma_counts_kept(v: PagesView, lo: int, n: nat)
    ensures
        counted(reserve_range(v, lo, n)) == counted(v),
        counted(lock_range(v, lo, n)) == counted(v),
        counted(unreserve_range(v, lo, n)) == counted(v),
{
    let c = count_clear(v.bits, lo, n);
    let s = count_set(v.bits, lo, n);
    lemma_move_kept(v.free, v.reserved, v.used, PAGE_SIZE * c);
    lemma_move_kept(v.free, v.used, v.reserved, PAGE_SIZE * c);
    lemma_move_kept(v.reserved, v.free, v.used, PAGE_SIZE * s);
    assert(wrapped(v.free - PAGE_SIZE * c) + v.reserved + wrapped(v.used + PAGE_SIZE * c) == wrapped(v.free
        - PAGE_SIZE * c) + wrapped(v.used + PAGE_SIZE * c) + v.reserved);
    assert(wrapped(v.free + PAGE_SIZE * s) + wrapped(v.reserved - PAGE_SIZE * s) + v.used == wrapped(v.reserved
        - PAGE_SIZE * s) + wrapped(v.free + PAGE_SIZE * s) + v.used);
    assert(v.free + v.used + v.reserved == v.free + v.reserved + v.used);
    assert(v.reserved + v.free + v.used == v.free + v.reserved + v.used);
}

proof fn lemma_count_all_clear(bits: Seq<bool>, lo: int, n: nat)
    requires
        0 <= lo,
        run_clear(bits, lo, n as int),
    ensures
        count_clear(bits, lo, n) == n,
    decreases n,
{
    if n > 0 {
        lemma_count_all_clear(bits, lo, (n - 1) as nat);
    }
}

proof fn lemma_count_all_set(bits: Seq<bool>, lo: int, n: nat)
    requires
        0 <= lo,
        lo + n <= bits.len(),
        forall|j: int| lo <= j < lo + n ==> #[trigger] bits[j],
    ensures
        count_set(bits, lo, n) == n,
    decreases n,
{
    if n > 0 {
        lemma_count_all_set(bits, lo, (n - 1) as nat);
    }
}

/// Giving back pages just reserved, all of which were free and in the
/// bitmap, restores the bits and the counts.
pub proof fn lemma_reserve_unreserve(v: PagesView, lo: int, n: nat)
    requires
        0 <= lo,
        run_clear(v.bits, lo, n as int),
        0 <= v.free <= usize::MAX,
        0 <= v.reserved <= usize::MAX,
    ensures
        ({
            let w = unreserve_range(reserve_range(v, lo, n), lo, n);
            &&& w.bits == v.bits
            &&& w.free == v.free
            &&& w.reserved == v.reserved
            &&& w.used == v.used
        }),
{
    let r = reserve_range(v, lo, n);
    lemma_count_all_clear(v.bits, lo, n);
    lemma_count_all_set(r.bits, lo, n);
    let m = usize::MAX as int + 1;
    let x = PAGE_SIZE * n;
    vstd::arithmetic::div_mod::lemma_add_mod_noop(v.free - x, x, m);
    vstd::arithmetic::div_mod::lemma_mod_twice(v.free - x, m);
    vstd::arithmetic::div_mod::lemma_small_mod(v.free as nat, m as nat);
    vstd::arithmetic::div_mod::lemma_add_mod_noop(v.reserved + x, -x, m);
    vstd::arithmetic::div_mod::lemma_small_mod(v.reserved as nat, m as nat);
    assert(wrapped(wrapped(v.free - x) + x) == v.free) by {
        vstd::arithmetic::div_mod::lemma_add_mod_noop(v.free - x, x, m);
        vstd::arithmetic::div_mod::lemma_mod_twice(v.free - x, m);
        vstd::arithmetic::div_mod::lemma_mod_add_multiples_vanish(0, m);
        assert((x % m) % m == x % m) by {
            vstd::arithmetic::div_mod::lemma_mod_twice(x, m);
        }
        vstd::arithmetic::div_mod::lemma_add_mod_noop(v.free - x, x, m);
        assert(((v.free - x) % m + x % m) % m == (v.free - x + x) % m);
        assert(((v.free - x) % m % m + x % m) % m == (v.free - x + x) % m);
        vstd::arithmetic::div_mod::lemma_add_mod_noop((v.free - x) % m, x, m);
    }
    assert(wrapped(wrapped(v.reserved + x) - x) == v.reserved) by {
        vstd::arithmetic::div_mod::lemma_add_mod_noop(v.reserved + x, -x, m);
        vstd::arithmetic::div_mod::lemma_add_mod_noop((v.reserved + x) % m, -x, m);
        vstd::arithmetic::div_mod::lemma_mod_twice(v.reserved + x, m);
    }
    let w = unreserve_range(r, lo, n);
    assert(w.bits =~= v.bits);
}

/// What the page allocator knows, as mathematical values.
pub struct PagesView {
    /// One bit per page: whether the page is taken.
    pub bits: Seq<bool>,
    /// Bytes counted as free.
    pub free: int,
    /// Bytes counted as reserved.
    pub reserved: int,
    /// Bytes counted as in use.
    pub used: int,
    /// Where the search for a free page starts.
    pub next: int,
    /// Where the bitmap itself lies in physical memory.
    pub bitmap_addr: int,
}

/// The page that holds physical address `addr`.
pub open spec fn page_of(addr: u64) -> int {
    addr as int / PAGE_SIZE as int
}

/// The `n` pages of `lo..lo + n` reserved: each one not yet taken is marked
/// taken and its bytes move from the free count to the reserved count.
pub open spec fn reserve_range(v: PagesView, lo: int, n: nat) -> PagesView {
    let c = count_clear(v.bits, lo, n);
    PagesView {
        bits: set_range(v.bits, lo, n as int, true),
        free: wrapped(v.free - PAGE_SIZE * c),
        reserved: wrapped(v.reserved + PAGE_SIZE * c),
        ..v
    }
}

/// The `n` pages of `lo..lo + n` locked: each one not yet taken is marked
/// taken and its bytes move from the free count to the used count.
pub open spec fn lock_range(v: PagesView, lo: int, n: nat) -> PagesView {
    let c = count_clear(v.bits, lo, n);
    PagesView {
        bits: set_range(v.bits, lo, n as int, true),
        free: wrapped(v.free - PAGE_SIZE * c),
        used: wrapped(v.used + PAGE_SIZE * c),
        ..v
    }
}

/// The `n` pages of `lo..lo + n` given back: each one taken is marked free,
/// its bytes move from the reserved count to the free count, and the search
/// for a free page starts no later than the first of them.
pub open spec fn unreserve_range(v: PagesView, lo: int, n: nat) -> PagesView {
    let c = count_set(v.bits, lo, n);
    let first = first_set_in(v.bits, lo, n);
    PagesView {
        bits: set_range(v.bits, lo, n as int, false),
        free: wrapped(v.free + PAGE_SIZE * c),
        reserved: wrapped(v.reserved - PAGE_SIZE * c),
        next: if first < lo + n && first < v.next {
            first
        } else {
            v.next
        },
        ..v
    }
}

/// Whether `size` pages from `start` have addresses that fit in 64 bits.
pub open spec fn range_fits(start: u64, size: int) -> bool {
    start + size * PAGE_SIZE <= u64::MAX + PAGE_SIZE
}

proof fn lemma_set_range_keeps(bits: Seq<bool>, lo: int, i: int, v: bool)
    requires
        0 <= i,
    ensures
        page_taken(set_range(bits, lo, i, v), lo + i) == page_taken(bits, lo + i),
        set_range(bits, lo, i, v).len() == bits.len(),
{
}

proof fn lemma_set_range_step(bits: Seq<bool>, lo: int, i: int, v: bool)
    requires
        0 <= i,
    ensures
        set_range(set_range(bits, lo, i, v), lo + i, 1, v) == set_range(bits, lo, i + 1, v),
        (0 <= lo + i < bits.len() && bits[lo + i] == v) ==> set_range(bits, lo, i, v) == set_range(
            bits,
            lo,
            i + 1,
            v,
        ),
{
    assert(set_range(set_range(bits, lo, i, v), lo + i, 1, v) =~= set_range(bits, lo, i + 1, v));
    if 0 <= lo + i < bits.len() && bits[lo + i] == v {
        assert(set_range(bits, lo, i, v) =~= set_range(bits, lo, i + 1, v));
    }
}

proof fn lemma_set_range_empty(bits: Seq<bool>, lo: int, v: bool)
    ensures
        set_range(bits, lo, 0, v) == bits,
{
    assert(set_range(bits, lo, 0, v) =~= bits);
}

proof fn lemma_first_set_step(bits: Seq<bool>, lo: int, n: nat)
    ensures
        first_set_in(bits, lo, n) >= lo,
        first_set_in(bits, lo, n) <= lo + n,
        first_set_in(bits, lo, n) < lo + n ==> page_taken(bits, first_set_in(bits, lo, n)),
        forall|j: int| lo <= j < first_set_in(bits, lo, n) ==> !page_taken(bits, j),
        first_set_in(bits, lo, n + 1) == if first_set_in(bits, lo, n) < lo + n {
            first_set_in(bits, lo, n)
        } else if page_taken(bits, lo + n) {
            lo + n
        } else {
            lo + n + 1
        },
    decreases n,
{
    if n > 0 {
        lemma_first_set_step(bits, lo + 1, (n - 1) as nat);
    }
    assert(first_set_in(bits, lo, n + 1) == if page_taken(bits, lo) {
        lo
    } else {
        first_set_in(bits, lo + 1, n)
    });
}

/// The counters of `v` hold `usize` values.
pub open spec fn counters_in_range(v: PagesView) -> bool {
    &&& 0 <= v.free <= usize::MAX
    &&& 0 <= v.reserved <= usize::MAX
    &&& 0 <= v.used <= usize::MAX
}

proof fn lemma_ranges_empty(v: PagesView, lo: int)
    requires
        counters_in_range(v),
    ensures
        reserve_range(v, lo, 0) == v,
        lock_range(v, lo, 0) == v,
        unreserve_range(v, lo, 0) == v,
{
    lemma_set_range_empty(v.bits, lo, true);
    lemma_set_range_empty(v.bits, lo, false);
    lemma_wrapped_small(v.free);
    lemma_wrapped_small(v.reserved);
    lemma_wrapped_small(v.used);
}

proof fn lemma_reserve_range_step(v: PagesView, lo: int, i: nat)
    ensures
        reserve_range(reserve_range(v, lo, i), lo + i, 1) == reserve_range(v, lo, i + 1),
        lock_range(lock_range(v, lo, i), lo + i, 1) == lock_range(v, lo, i + 1),
{
    reveal_with_fuel(count_clear, 2);
    lemma_set_range_keeps(v.bits, lo, i as int, true);
    lemma_set_range_step(v.bits, lo, i as int, true);
    let c = count_clear(v.bits, lo, i);
    let c1 = count_clear(set_range(v.bits, lo, i as int, true), lo + i, 1);
    assert(count_clear(v.bits, lo, i + 1) == c + c1);
    lemma_wrapped_shift(v.free - PAGE_SIZE * c, PAGE_SIZE * c1);
    lemma_wrapped_shift(v.reserved + PAGE_SIZE * c, PAGE_SIZE * c1);
    lemma_wrapped_shift(v.used + PAGE_SIZE * c, PAGE_SIZE * c1);
}

proof fn lemma_unreserve_range_step(v: PagesView, lo: int, i: nat)
    ensures
        unreserve_range(unreserve_range(v, lo, i), lo + i, 1) == unreserve_range(v, lo, i + 1),
{
    reveal_with_fuel(count_set, 2);
    reveal_with_fuel(first_set_in, 2);
    lemma_set_range_keeps(v.bits, lo, i as int, false);
    lemma_set_range_step(v.bits, lo, i as int, false);
    lemma_first_set_step(v.bits, lo, i);
    let w = unreserve_range(v, lo, i);
    let c = count_set(v.bits, lo, i);
    let c1 = count_set(w.bits, lo + i, 1);
    assert(count_set(v.bits, lo, i + 1) == c + c1);
    lemma_wrapped_shift(v.free + PAGE_SIZE * c, PAGE_SIZE * c1);
    lemma_wrapped_shift(v.reserved - PAGE_SIZE * c, PAGE_SIZE * c1);
    assert(first_set_in(w.bits, lo + i, 1) == if page_taken(w.bits, lo + i) {
        lo + i
    } else {
        lo + i + 1
    });
}

proof fn lemma_page_of_step(start: u64, i: int)
    requires
        0 <= i,
        start + i * PAGE_SIZE <= u64::MAX,
    ensures
        (start + i * PAGE_SIZE) / PAGE_SIZE as int == page_of(start) + i,
{
    assert((start + i * 4096) / 4096 == start / 4096 + i) by (nonlinear_arith)
        requires
            0 <= i,
            0 <= start,
    ;
}

/// The first `s >= from` at which `n > 0` clear pages in a row begin, when
/// there is one.
pub open spec fn first_run_from(bits: Seq<bool>, from: int, n: int) -> Option<int>
    decreases bits.len() - from,
{
    if n <= 0 || from < 0 || from + n > bits.len() {
        None
    } else if run_clear(bits, from, n) {
        Some(from)
    } else {
        first_run_from(bits, from + 1, n)
    }
}

/// The number of pages a request of `size` bytes takes.
pub open spec fn pages_for(size: int) -> int {
    (size + PAGE_SIZE - 1) / PAGE_SIZE as int
}

/// The entries of a memory map, from the first to the `n`th, applied in turn:
/// the pages of each region of conventional memory are given back.
pub open spec fn mark_usable_upto(v: PagesView, map: Seq<EFIMemoryDescriptor>, n: nat) -> PagesView
    decreases n,
{
    if n == 0 {
        v
    } else {
        let prev = mark_usable_upto(v, map, (n - 1) as nat);
        let d = map[n - 1];
        if d.memory_type == 7 {
            unreserve_range(prev, page_of(d.physical_start), (d.number_of_pages as usize) as nat)
        } else {
            prev
        }
    }
}

/// The number of pages locked for a bitmap sized for `free` bytes of memory.
pub open spec fn bitmap_pages(free: int) -> int {
    (free / PAGE_SIZE as int / 8 + 1) / PAGE_SIZE as int + 1
}

/// The number of pages locked for a kernel that ends at `kernel_end`.
pub open spec fn kernel_pages(kernel_end: u64) -> int {
    (kernel_end - KERNEL_PHYS_START) / PAGE_SIZE as int + 1
}

/// The start of the largest usable region of a memory map, where the bitmap
/// is placed.
pub open spec fn bitmap_start(map: Seq<EFIMemoryDescriptor>) -> int {
    match largest_usable_index(map, map.len()) {
        Some(i) => map[i].physical_start as int,
        None => 0,
    }
}

/// The state after a memory map is read, up to the locking of the bitmap's
/// own pages: a fresh bitmap for all of memory, every page reserved, the
/// conventional regions given back, then the first 256 pages and the kernel's
/// pages locked.
pub open spec fn memory_map_before_bitmap(
    v: PagesView,
    map: Seq<EFIMemoryDescriptor>,
    kernel_end: u64,
) -> PagesView {
    let total = memory_size_upto(map, map.len()) as int;
    let v0 = PagesView {
        bits: Seq::new(((total / PAGE_SIZE as int / 8 + 1) * 8) as nat, |i: int| false),
        free: total,
        bitmap_addr: bitmap_start(map),
        ..v
    };
    let v1 = reserve_range(v0, 0, (total / PAGE_SIZE as int + 1) as nat);
    let v2 = mark_usable_upto(v1, map, map.len());
    let v3 = lock_range(v2, 0, 0x100);
    lock_range(v3, page_of(KERNEL_PHYS_START), kernel_pages(kernel_end) as nat)
}

/// The state after a memory map is read: as
/// [`memory_map_before_bitmap`], with the pages of the bitmap locked too.
pub open spec fn memory_map_state(
    v: PagesView,
    map: Seq<EFIMemoryDescriptor>,
    kernel_end: u64,
) -> PagesView {
    let v4 = memory_map_before_bitmap(v, map, kernel_end);
    lock_range(v4, v4.bitmap_addr / PAGE_SIZE as int, bitmap_pages(v4.free) as nat)
}

proof fn lemma_first_clear(bits: Seq<bool>, from: int, i: int)
    requires
        0 <= from <= i <= bits.len(),
        forall|j: int| from <= j < i ==> bits[j],
        i == bits.len() || !bits[i],
    ensures
        first_clear_from(bits, from) == i,
    decreases i - from,
{
    if from < i {
        lemma_first_clear(bits, from + 1, i);
    }
}

proof fn lemma_first_run_skip(bits: Seq<bool>, from: int, t: int, n: int)
    requires
        0 <= from <= t,
        forall|s: int| from <= s < t ==> !run_clear(bits, s, n),
    ensures
        first_run_from(bits, from, n) == first_run_from(bits, t, n),
    decreases t - from,
{
    if from < t {
        lemma_first_run_skip(bits, from + 1, t, n);
    }
}

/// Keeps track of which pages of physical memory are free, reserved or in
/// use, with one bit per page: a set bit marks a page that is not free.
pub struct PhysicalPageAllocator {
    bitmap: Bitmap,
    bitmap_addr: u64,
    free_memory: usize,
    reserved_memory: usize,
    used_memory: usize,
    bitmap_index: usize,
}

impl View for PhysicalPageAllocator {
    type V = PagesView;

    closed spec fn view(&self) -> PagesView {
        PagesView {
            bits: self.bitmap@,
            free: self.free_memory as int,
            reserved: self.reserved_memory as int,
            used: self.used_memory as int,
            next: self.bitmap_index as int,
            bitmap_addr: self.bitmap_addr as int,
        }
    }
}

impl PhysicalPageAllocator {
    /// The bitmap is well formed, every page it covers has an address that
    /// fits in 64 bits, and the counters hold `usize` values.
    pub closed spec fn wf(&self) -> bool {
        &&& self.bitmap.wf()
        &&& self.bitmap@.len() == self.bitmap.spec_size() * 8
        &&& self.bitmap.spec_size() * 8 <= usize::MAX
        &&& self.bitmap@.len() * PAGE_SIZE <= u64::MAX
    }

    /// An allocator with an empty bitmap and every count at 0.
    pub fn new() -> (a: PhysicalPageAllocator)
        ensures
            a.wf(),
            a@ == (PagesView {
                bits: Seq::<bool>::empty(),
                free: 0,
                reserved: 0,
                used: 0,
                next: 0,
                bitmap_addr: 0,
            }),
    {
        let a = PhysicalPageAllocator {
            bitmap: Bitmap::new(Vec::new(), 0),
            bitmap_addr: 0,
            free_memory: 0,
            reserved_memory: 0,
            used_memory: 0,
            bitmap_index: 0,
        };
        assert(a@.bits =~= Seq::<bool>::empty());
        a
    }

    /// The free memory in whole mebibytes.
    pub fn free_memory_mb(&self) -> (mb: usize)
        ensures
            mb == self@.free / 1024 / 1024,
    {
        self.free_memory / 1024 / 1024
    }

    /// The number of bytes of a bitmap with one bit per page of `total_memory_size` bytes.
    fn calc_bitmap_size(&self, total_memory_size: usize) -> (size: usize)
        ensures
            size == total_memory_size / PAGE_SIZE / 8 + 1,
    {
        total_memory_size / PAGE_SIZE / 8 + 1
    }

    /// Starts a fresh, all-clear bitmap for `total_memory` bytes of memory,
    /// placed at the start of `region`, and counts all the memory as free.
    fn init_bitmap(&mut self, region: &Region, total_memory: usize)
        requires
            (total_memory / PAGE_SIZE / 8 + 1) * 8 * PAGE_SIZE <= u64::MAX,
        ensures
            final(self).wf(),
            final(self)@ == (PagesView {
                bits: Seq::new(((total_memory / PAGE_SIZE / 8 + 1) * 8) as nat, |i: int| false),
                free: total_memory as int,
                bitmap_addr: region.spec_start().0 as int,
                ..old(self)@
            }),
    {
        let bitmap_size = self.calc_bitmap_size(total_memory);
        self.free_memory = total_memory;
        let mut buffer: Vec<u8> = Vec::new();
        let mut i: usize = 0;
        while i < bitmap_size
            invariant
                i <= bitmap_size,
                buffer@.len() == i,
                forall|j: int| 0 <= j < i ==> buffer@[j] == 0,
            decreases bitmap_size - i,
        {
            buffer.push(0);
            i = i + 1;
        }
        self.bitmap = Bitmap::new(buffer, bitmap_size);
        self.bitmap_addr = region.start().0;
        proof {
            assert forall|j: int| 0 <= j < bitmap_size * 8 implies !bit_of(buffer@, j) by {
                let b = buffer@[j / 8];
                let k = (j % 8) as u8;
                assert(b == 0);
                assert(0u8 & (0x80u8 >> k) == 0) by (bit_vector);
            }
            assert(self@.bits =~= Seq::new(
                ((total_memory / PAGE_SIZE / 8 + 1) * 8) as nat,
                |i: int| false,
            ));
        }
    }

    /// Whether page `page` reads as taken.
    fn page_is_taken(&self, page: u64) -> (taken: bool)
        requires
            self.wf(),
        ensures
            taken == page_taken(self@.bits, page as int),
    {
        let len: usize = self.bitmap.size() * 8;
        if page < len as u64 {
            self.bitmap.get(page as usize)
        } else {
            false
        }
    }

    /// Sets the bit of page `page`, when the bitmap covers it, to `value`.
    fn mark_page(&mut self, page: u64, value: bool)
        requires
            old(self).wf(),
        ensures
            final(self).wf(),
            final(self)@ == (PagesView { bits: set_range(old(self)@.bits, page as int, 1, value), ..old(self)@ }),
    {
        let len: usize = self.bitmap.size() * 8;
        if page < len as u64 {
            self.bitmap.set(page as usize, value);
        }
        assert(self@.bits =~= set_range(old(self)@.bits, page as int, 1, value));
    }

    /// Reserves the page that holds `addr`: when it is not taken, marks it
    /// taken and moves its bytes from the free count to the reserved count.
    fn reserve_page(&mut self, addr: PhysAddr)
        requires
            old(self).wf(),
        ensures
            final(self).wf(),
            final(self)@ == reserve_range(old(self)@, page_of(addr.0), 1),
    {
        let index = addr.0 / (PAGE_SIZE as u64);
        proof {
            reveal_with_fuel(count_clear, 2);
            lemma_wrapping_ops(self.free_memory, PAGE_SIZE);
            lemma_wrapping_ops(self.reserved_memory, PAGE_SIZE);
            lemma_wrapped_small(self.free_memory as int);
            lemma_wrapped_small(self.reserved_memory as int);
            lemma_set_range_step(old(self)@.bits, index as int, 0, true);
            lemma_set_range_empty(old(self)@.bits, index as int, true);
        }
        if !self.page_is_taken(index) {
            self.mark_page(index, true);
            self.free_memory = self.free_memory.wrapping_sub(PAGE_SIZE);
            self.reserved_memory = self.reserved_memory.wrapping_add(PAGE_SIZE);
        }
    }

    /// Gives back the page that holds `addr`: when it is taken, marks it free,
    /// moves its bytes from the reserved count to the free count, and lets the
    /// search for a free page start there if it started later.
    fn unreserve_page(&mut self, addr: PhysAddr)
        requires
            old(self).wf(),
        ensures
            final(self).wf(),
            final(self)@ == unreserve_range(old(self)@, page_of(addr.0), 1),
    {
        let index = addr.0 / (PAGE_SIZE as u64);
        proof {
            reveal_with_fuel(count_set, 2);
            reveal_with_fuel(first_set_in, 2);
            lemma_wrapping_ops(self.free_memory, PAGE_SIZE);
            lemma_wrapping_ops(self.reserved_memory, PAGE_SIZE);
            lemma_wrapped_small(self.free_memory as int);
            lemma_wrapped_small(self.reserved_memory as int);
            lemma_set_range_step(old(self)@.bits, index as int, 0, false);
            lemma_set_range_empty(old(self)@.bits, index as int, false);
        }
        if self.page_is_taken(index) {
            self.mark_page(index, false);
            self.free_memory = self.free_memory.wrapping_add(PAGE_SIZE);
            self.reserved_memory = self.reserved_memory.wrapping_sub(PAGE_SIZE);
            if (self.bitmap_index as u64) > index {
                self.bitmap_index = index as usize;
            }
        }
        proof {
            let v = old(self)@;
            let p = index as int;
            assert(first_set_in(v.bits, p, 1) == if page_taken(v.bits, p) { p } else { p + 1 });
            assert(count_set(v.bits, p, 1) == if page_taken(v.bits, p) { 1nat } else { 0nat });
            assert(self@.bits == unreserve_range(v, p, 1).bits);
            assert(self@.free == unreserve_range(v, p, 1).free);
            assert(self@.reserved == unreserve_range(v, p, 1).reserved);
            assert(self@.next == unreserve_range(v, p, 1).next);
        }
    }

    /// Locks the page that holds `addr`: when it is not taken, marks it taken
    /// and moves its bytes from the free count to the used count.
    fn lock_page(&mut self, addr: PhysAddr)
        requires
            old(self).wf(),
        ensures
            final(self).wf(),
            final(self)@ == lock_range(old(self)@, page_of(addr.0), 1),
    {
        let index = addr.0 / (PAGE_SIZE as u64);
        proof {
            reveal_with_fuel(count_clear, 2);
            lemma_wrapping_ops(self.free_memory, PAGE_SIZE);
            lemma_wrapping_ops(self.used_memory, PAGE_SIZE);
            lemma_wrapped_small(self.free_memory as int);
            lemma_wrapped_small(self.used_memory as int);
            lemma_set_range_step(old(self)@.bits, index as int, 0, true);
            lemma_set_range_empty(old(self)@.bits, index as int, true);
        }
        if !self.page_is_taken(index) {
            self.mark_page(index, true);
            self.free_memory = self.free_memory.wrapping_sub(PAGE_SIZE);
            self.used_memory = self.used_memory.wrapping_add(PAGE_SIZE);
        }
    }

    /// Reserves the `size` pages from `start` one after the other.
    fn reserve_pages(&mut self, start: PhysAddr, size: usize)
        requires
            old(self).wf(),
            range_fits(start.0, size as int),
        ensures
            final(self).wf(),
            final(self)@ == reserve_range(old(self)@, page_of(start.0), size as nat),
    {
        let ghost v0 = self@;
        proof {
            lemma_ranges_empty(v0, page_of(start.0));
        }
        let mut i: usize = 0;
        while i < size
            invariant
                self.wf(),
                i <= size,
                range_fits(start.0, size as int),
                self@ == reserve_range(v0, page_of(start.0), i as nat),
            decreases size - i,
        {
            let addr = start.0 + (i as u64) * (PAGE_SIZE as u64);
            proof {
                lemma_page_of_step(start.0, i as int);
                lemma_reserve_range_step(v0, page_of(start.0), i as nat);
            }
            self.reserve_page(PhysAddr(addr));
            i = i + 1;
        }
    }

    /// Gives back the `size` pages from `start` one after the other.
    fn unreserve_pages(&mut self, start: PhysAddr, size: usize)
        requires
            old(self).wf(),
            range_fits(start.0, size as int),
        ensures
            final(self).wf(),
            final(self)@ == unreserve_range(old(self)@, page_of(start.0), size as nat),
    {
        let ghost v0 = self@;
        proof {
            lemma_ranges_empty(v0, page_of(start.0));
        }
        let mut i: usize = 0;
        while i < size
            invariant
                self.wf(),
                i <= size,
                range_fits(start.0, size as int),
                self@ == unreserve_range(v0, page_of(start.0), i as nat),
            decreases size - i,
        {
            let addr = start.0 + (i as u64) * (PAGE_SIZE as u64);
            proof {
                lemma_page_of_step(start.0, i as int);
                lemma_unreserve_range_step(v0, page_of(start.0), i as nat);
            }
            self.unreserve_page(PhysAddr(addr));
            i = i + 1;
        }
    }

    /// Locks the `size` pages from `start` one after the other, marking them
    /// in use.
    pub fn lock_pages(&mut self, start: PhysAddr, size: usize)
        requires
            old(self).wf(),
            range_fits(start.0, size as int),
        ensures
            final(self).wf(),
            final(self)@ == lock_range(old(self)@, page_of(start.0), size as nat),
    {
        let ghost v0 = self@;
        proof {
            lemma_ranges_empty(v0, page_of(start.0));
        }
        let mut i: usize = 0;
        while i < size
            invariant
                self.wf(),
                i <= size,
                range_fits(start.0, size as int),
                self@ == lock_range(v0, page_of(start.0), i as nat),
            decreases size - i,
        {
            let addr = start.0 + (i as u64) * (PAGE_SIZE as u64);
            proof {
                lemma_page_of_step(start.0, i as int);
                lemma_reserve_range_step(v0, page_of(start.0), i as nat);
            }
            self.lock_page(PhysAddr(addr));
            i = i + 1;
        }
    }

    /// Allocates one page: the first page at or after where the search starts
    /// that is not taken is locked, the search moves past it, and its address
    /// is returned; `None`, with nothing changed, when there is no such page.
    pub fn alloc_page(&mut self) -> (page: Option<PhysAddr>)
        requires
            old(self).wf(),
        ensures
            final(self).wf(),
            ({
                let v = old(self)@;
                let f = first_clear_from(v.bits, v.next);
                if f < v.bits.len() {
                    &&& page == Some(PhysAddr((f * PAGE_SIZE) as u64))
                    &&& final(self)@ == (PagesView { next: f + 1, ..lock_range(v, f, 1) })
                } else {
                    &&& page is None
                    &&& final(self)@ == v
                }
            }),
    {
        let ghost v = self@;
        let len: usize = self.bitmap.size() * 8;
        let mut i: usize = self.bitmap_index;
        while i < len
            invariant
                self.wf(),
                self@ == v,
                v == old(self)@,
                len == v.bits.len(),
                v.next <= i,
                forall|j: int| v.next <= j < i ==> v.bits[j],
            decreases len - i,
        {
            if !self.bitmap.get(i) {
                proof {
                    lemma_first_clear(v.bits, v.next, i as int);
                }
                let addr = PhysAddr((i as u64) * (PAGE_SIZE as u64));
                proof {
                    lemma_page_of_step(0, i as int);
                    assert(addr.0 == (i * PAGE_SIZE) as u64);
                }
                self.lock_page(addr);
                self.bitmap_index = i + 1;
                return Some(addr);
            }
            i = i + 1;
        }
        proof {
            if v.next <= len {
                lemma_first_clear(v.bits, v.next, len as int);
            }
        }
        None
    }

    /// Allocates the pages a request of `layout` takes, in a row: the first
    /// run of that many pages not taken, at or after where the search starts,
    /// is locked, the search moves past it, and its address is returned;
    /// `None`, with nothing changed, when there is no such run or the request
    /// takes no page.
    pub fn alloc_pages(&mut self, layout: Layout) -> (r: Option<PhysAddr>)
        requires
            old(self).wf(),
            layout.wf(),
        ensures
            final(self).wf(),
            ({
                let v = old(self)@;
                let n = pages_for(layout.spec_size() as int);
                match first_run_from(v.bits, v.next, n) {
                    Some(s) => {
                        &&& r == Some(PhysAddr((s * PAGE_SIZE) as u64))
                        &&& final(self)@ == (PagesView { next: s + n, ..lock_range(v, s, n as nat) })
                    },
                    None => {
                        &&& r is None
                        &&& final(self)@ == v
                    },
                }
            }),
    {
        let ghost v = self@;
        let num_pages = (layout.size() + PAGE_SIZE - 1) / PAGE_SIZE;
        let len: usize = self.bitmap.size() * 8;
        let mut start: Option<usize> = None;
        let mut count: usize = 0;
        let mut i: usize = self.bitmap_index;
        if i > len || num_pages == 0 {
            return None;
        }
        while i < len
            invariant
                self.wf(),
                self@ == v,
                v == old(self)@,
                len == v.bits.len(),
                num_pages == pages_for(layout.spec_size() as int),
                num_pages > 0,
                v.next <= i - count,
                i <= len,
                count < num_pages,
                count == 0 <==> start is None,
                start matches Some(st) ==> st == i - count,
                forall|j: int| i - count <= j < i ==> !v.bits[j],
                first_run_from(v.bits, v.next, num_pages as int) == first_run_from(
                    v.bits,
                    i - count,
                    num_pages as int,
                ),
            decreases len - i,
        {
            if !self.bitmap.get(i) {
                if start.is_none() {
                    start = Some(i);
                }
                count = count + 1;
                if count == num_pages {
                    let st = start.unwrap();
                    proof {
                        assert(run_clear(v.bits, st as int, num_pages as int));
                    }
                    self.lock_pages(PhysAddr((st as u64) * (PAGE_SIZE as u64)), num_pages);
                    proof {
                        lemma_page_of_step(0, st as int);
                        assert((st as u64) * (PAGE_SIZE as u64) == (st * PAGE_SIZE) as u64);
                    }
                    self.bitmap_index = st + num_pages;
                    return Some(PhysAddr((st as u64) * (PAGE_SIZE as u64)));
                }
            } else {
                proof {
                    assert forall|s: int| i - count <= s < i + 1 implies !run_clear(
                        v.bits,
                        s,
                        num_pages as int,
                    ) by {
                        assert(s <= i < s + num_pages);
                    }
                    lemma_first_run_skip(v.bits, i - count, i + 1, num_pages as int);
                }
                start = None;
                count = 0;
            }
            i = i + 1;
        }
        None
    }

    /// Reserves the pages of all of memory and the first 256 pages.
    fn reserve_sys_pages(&mut self, total_memory_size: usize)
        requires
            old(self).wf(),
            range_fits(0, (total_memory_size / PAGE_SIZE) as int + 1),
        ensures
            final(self).wf(),
            final(self)@ == reserve_range(
                reserve_range(old(self)@, 0, ((total_memory_size / PAGE_SIZE) as int + 1) as nat),
                0,
                0x100,
            ),
    {
        self.reserve_pages(PhysAddr(0), total_memory_size / PAGE_SIZE + 1);
        self.reserve_pages(PhysAddr(0), 0x100);
    }

    /// Gives back the pages of every region of conventional memory in the
    /// memory map, in the order of the map.
    fn mark_usable(&mut self, boot_info: &BootInfo)
        requires
            old(self).wf(),
            forall|i: int|
                0 <= i < boot_info.memory_map@.len() && #[trigger] boot_info.memory_map@[i].memory_type
                    == 7 ==> range_fits(
                    boot_info.memory_map@[i].physical_start,
                    (boot_info.memory_map@[i].number_of_pages as usize) as int,
                ),
        ensures
            final(self).wf(),
            final(self)@ == mark_usable_upto(
                old(self)@,
                boot_info.memory_map@,
                boot_info.memory_map@.len(),
            ),
    {
        let ghost map = boot_info.memory_map@;
        let mut i: usize = 0;
        while i < boot_info.memory_map.len()
            invariant
                self.wf(),
                map == boot_info.memory_map@,
                i <= map.len(),
                forall|k: int|
                    0 <= k < map.len() && #[trigger] map[k].memory_type == 7 ==> range_fits(
                        map[k].physical_start,
                        (map[k].number_of_pages as usize) as int,
                    ),
                self@ == mark_usable_upto(old(self)@, map, i as nat),
            decreases map.len() - i,
        {
            let descriptor = &boot_info.memory_map[i];
            if descriptor.is_usable() {
                self.unreserve_pages(
                    PhysAddr(descriptor.physical_start),
                    descriptor.number_of_pages as usize,
                );
            }
            i = i + 1;
        }
    }

    /// Locks the pages that hold the bitmap itself, sized from the memory
    /// counted as free.
    fn lock_bitmap(&mut self)
        requires
            old(self).wf(),
            range_fits(old(self)@.bitmap_addr as u64, bitmap_pages(old(self)@.free)),
        ensures
            final(self).wf(),
            final(self)@ == lock_range(
                old(self)@,
                old(self)@.bitmap_addr / PAGE_SIZE as int,
                bitmap_pages(old(self)@.free) as nat,
            ),
    {
        let bitmap_size = self.calc_bitmap_size(self.free_memory);
        self.lock_pages(PhysAddr(self.bitmap_addr), bitmap_size / PAGE_SIZE + 1);
    }

    /// Sets the allocator up from the memory map: a bitmap for all of memory
    /// at the start of the largest usable region, every page reserved, the
    /// regions of conventional memory given back, and the first 256 pages,
    /// the kernel's pages and the bitmap's own pages locked.
    pub fn read_efi_memory_map(&mut self, boot_info: &BootInfo)
        requires
            forall|i: int|
                0 <= i < boot_info.memory_map@.len() ==> #[trigger] region_bytes(
                    boot_info.memory_map@[i],
                ) <= u64::MAX,
            forall|i: int|
                0 <= i < boot_info.memory_map@.len() ==> #[trigger] region_bytes(
                    boot_info.memory_map@[i],
                ) <= usize::MAX,
            memory_size_upto(boot_info.memory_map@, boot_info.memory_map@.len()) <= usize::MAX,
            (memory_size_upto(boot_info.memory_map@, boot_info.memory_map@.len()) as int
                / PAGE_SIZE as int / 8 + 1) * 8 * PAGE_SIZE <= u64::MAX,
            forall|i: int|
                0 <= i < boot_info.memory_map@.len() && #[trigger] boot_info.memory_map@[i].memory_type
                    == 7 ==> range_fits(
                    boot_info.memory_map@[i].physical_start,
                    (boot_info.memory_map@[i].number_of_pages as usize) as int,
                ),
            boot_info.kernel_end >= KERNEL_PHYS_START,
            kernel_pages(boot_info.kernel_end) <= usize::MAX,
            range_fits(KERNEL_PHYS_START, kernel_pages(boot_info.kernel_end)),
            ({
                let v4 = memory_map_before_bitmap(
                    old(self)@,
                    boot_info.memory_map@,
                    boot_info.kernel_end,
                );
                range_fits(v4.bitmap_addr as u64, bitmap_pages(v4.free))
            }),
        ensures
            final(self).wf(),
            final(self)@ == memory_map_state(old(self)@, boot_info.memory_map@, boot_info.kernel_end),
    {
        let ghost map = boot_info.memory_map@;
        let largest_region = largest_usable_memory_region(boot_info);
        let memory_size = get_memory_size(boot_info);
        self.init_bitmap(&largest_region, memory_size);
        proof {
            assert(self@.bitmap_addr == bitmap_start(map));
        }
        self.reserve_pages(PhysAddr(0), memory_size / PAGE_SIZE + 1);
        self.mark_usable(boot_info);
        self.lock_pages(PhysAddr(0), 0x100);
        let kernel_size = ((boot_info.kernel_end - KERNEL_PHYS_START) / (PAGE_SIZE as u64) + 1) as usize;
        self.lock_pages(PhysAddr(KERNEL_PHYS_START), kernel_size);
        proof {
            assert(self@ == memory_map_before_bitmap(old(self)@, map, boot_info.kernel_end));
        }
        self.lock_bitmap();
    }
}

} // verus!
