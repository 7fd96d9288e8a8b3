use vstd::prelude::*;
use vstd::arithmetic::power2::*;
use crate::data_types::linked_list::LinkedList;
use crate::memory::heap::math::{
    block_aligned, block_fits, ceil_log2, lemma_aligned_down, lemma_ceil_log2_of_pow2,
    lemma_buddy_bits, lemma_mask_is_mod, low_mask, lemma_low_bit, prev_power_of_two, align_up,
    align_down, round_up, round_down,
    lemma_pow2_exponent_bound, lemma_pow2_order, lemma_shl_is_pow2, lemma_word_limits,
    log2_of_power, next_power_of_two,
};
use crate::memory::layout::{Layout, is_power_of_two};
use crate::memory::allocation::region::Region;

verus! {

/// Bytes held by the free lists of the classes below `n`.
pub open spec fn bytes_upto(lists: Seq<Seq<usize>>, n: nat) -> nat
    decreases n,
{
    if n == 0 {
        0
    } else {
        bytes_upto(lists, (n - 1) as nat) + lists[n - 1].len() * pow2((n - 1) as nat)
    }
}

/// Bytes held by all the free lists: list `k` holds blocks of `2^k` bytes.
pub open spec fn free_bytes(lists: Seq<Seq<usize>>) -> nat {
    bytes_upto(lists, lists.len())
}

/// Every block of list `k` is aligned to `2^k` and lies within the address space.
pub open spec fn lists_wf(lists: Seq<Seq<usize>>) -> bool {
    forall|k: int, i: int|
        0 <= k < lists.len() && 0 <= i < lists[k].len() ==> block_aligned(
            #[trigger] lists[k][i],
            k as nat,
        ) && block_fits(lists[k][i], k as nat)
}

/// The size class of a request: blocks of this class hold `2^class` bytes,
/// the least power of two that is at least the size, the alignment and 8.
pub open spec fn size_class(size: usize, align: usize) -> nat {
    let a = ceil_log2(size as nat);
    let b = ceil_log2(align as nat);
    let m = if a >= b { a } else { b };
    if m >= word_class() { m } else { word_class() }
}

/// The first class at or above `c` whose list holds a block; `lists.len()` when none does.
pub open spec fn first_nonempty(lists: Seq<Seq<usize>>, c: nat) -> nat
    decreases lists.len() - c,
{
    if c >= lists.len() {
        lists.len()
    } else if lists[c as int].len() > 0 {
        c
    } else {
        first_nonempty(lists, c + 1)
    }
}

/// The free lists once the top block `b` of list `i` was split down to class `c`
/// and its lower part handed out: list `i` loses `b`, and every class `k` in
/// `c..i` gains the upper half `b + 2^k` cut off at that level.
pub open spec fn lists_after_alloc(lists: Seq<Seq<usize>>, i: int, c: int, b: usize) -> Seq<
    Seq<usize>,
> {
    Seq::new(
        lists.len(),
        |k: int|
            if k == i {
                lists[k].drop_last()
            } else if c <= k < i {
                lists[k].push((b + pow2(k as nat)) as usize)
            } else {
                lists[k]
            },
    )
}

/// The free lists while the top block `b` of list `i` is being split, once the
/// levels above `j` were cut in halves.
pub open spec fn split_state(lists: Seq<Seq<usize>>, i: int, j: int, b: usize) -> Seq<Seq<usize>> {
    Seq::new(
        lists.len(),
        |k: int|
            if k == i && j < i {
                lists[k].drop_last()
            } else if j < k < i {
                lists[k].push((b + pow2(k as nat)) as usize)
            } else if k == j && j < i {
                lists[k].push((b + pow2(k as nat)) as usize).push(b)
            } else {
                lists[k]
            },
    )
}

/// The free lists once a freed block `ptr` of class `class`, on top of its list,
/// was merged with its buddy as long as the buddy is free: the buddy is the
/// block whose address differs from `ptr` in bit `class` alone. Both leave
/// their list (the buddy found nearest the top), and the merged block, at the
/// lower of the two addresses, goes on top of the list of the next class.
pub open spec fn merge_result(lists: Seq<Seq<usize>>, ptr: usize, class: nat) -> Seq<Seq<usize>>
    decreases lists.len() - class,
{
    if class + 1 < lists.len() && class + 1 < usize::BITS {
        let buddy = ptr ^ (1usize << (class as usize));
        match lists[class as int].index_of_last(buddy) {
            Some(idx) => {
                let p = if ptr <= buddy {
                    ptr
                } else {
                    buddy
                };
                let l2 = lists.update(
                    class as int,
                    lists[class as int].remove(idx).drop_last(),
                ).update(class + 1 as int, lists[class + 1 as int].push(p));
                merge_result(l2, p, class + 1)
            },
            None => lists,
        }
    } else {
        lists
    }
}

/// Merging a freed block with its buddies keeps the free bytes: two blocks
/// of a class leave for one of the next.
pub proof fn lemma_merge_bytes(lists: Seq<Seq<usize>>, ptr: usize, class: nat)
    requires
        class < lists.len(),
        lists[class as int].len() > 0,
        lists[class as int].last() == ptr,
    ensures
        free_bytes(merge_result(lists, ptr, class)) == free_bytes(lists),
    decreases lists.len() - class,
{
    if class + 1 < lists.len() && class + 1 < usize::BITS {
        let c = class as usize;
        let bit = 1usize << c;
        let buddy = ptr ^ bit;
        lemma_shl_is_pow2(c);
        lemma_pow2_pos(class);
        assert(bit != 0 ==> ptr ^ bit != ptr) by (bit_vector);
        let l = lists[class as int];
        l.index_of_last_ensures(buddy);
        if let Some(idx) = l.index_of_last(buddy) {
            let p = if ptr <= buddy { ptr } else { buddy };
            let shorter = l.remove(idx).drop_last();
            assert(idx != l.len() - 1);
            let l1 = lists.update(class as int, shorter);
            let l2 = l1.update(class + 1 as int, lists[class + 1 as int].push(p));
            lemma_bytes_update(lists, class as int, shorter, lists.len());
            lemma_bytes_update(l1, class + 1 as int, lists[class + 1 as int].push(p), lists.len());
            lemma_pow2_unfold(class + 1);
            lemma_merge_bytes(l2, p, class + 1);
        }
    }
}

/// The bytes of the lists after a block of list `i` was split down to class
/// `c`, over the classes below `n`: the halves cut off add the classes from
/// `c` up, the block taken leaves class `i`.
proof fn lemma_alloc_bytes_upto(l: Seq<Seq<usize>>, i: int, c: int, b: usize, n: nat)
    requires
        0 <= c <= i < l.len(),
        n <= l.len(),
        l[i].len() > 0,
    ensures
        bytes_upto(lists_after_alloc(l, i, c, b), n) == bytes_upto(l, n) + (if n <= c {
            0
        } else if n <= i {
            pow2(n) - pow2(c as nat)
        } else {
            pow2(i as nat) - pow2(c as nat) - pow2(i as nat)
        }),
    decreases n,
{
    if n > 0 {
        lemma_alloc_bytes_upto(l, i, c, b, (n - 1) as nat);
        let k = n - 1;
        let new = lists_after_alloc(l, i, c, b);
        let p = pow2(k as nat);
        lemma_pow2_unfold(n);
        if k == i {
            assert(new[k].len() == l[k].len() - 1);
            assert(new[k].len() * p == l[k].len() * p - p) by (nonlinear_arith)
                requires
                    new[k].len() == l[k].len() - 1,
            ;
        } else if c <= k < i {
            assert(new[k].len() == l[k].len() + 1);
            assert(new[k].len() * p == l[k].len() * p + p) by (nonlinear_arith)
                requires
                    new[k].len() == l[k].len() + 1,
            ;
        } else {
            assert(new[k] == l[k]);
        }
    }
}

/// Splitting a block down to class `c` and handing out its lower part takes
/// `2^c` bytes from the free lists.
pub proof fn lemma_alloc_bytes(l: Seq<Seq<usize>>, i: int, c: int, b: usize)
    requires
        0 <= c <= i < l.len(),
        l[i].len() > 0,
    ensures
        free_bytes(lists_after_alloc(l, i, c, b)) + pow2(c as nat) == free_bytes(l),
{
    lemma_alloc_bytes_upto(l, i, c, b, l.len());
}

proof fn lemma_first_nonempty(lists: Seq<Seq<usize>>, c: nat)
    ensures
        c <= first_nonempty(lists, c) <= lists.len() || (c > lists.len() && first_nonempty(lists, c) == lists.len()),
        first_nonempty(lists, c) < lists.len() ==> lists[first_nonempty(lists, c) as int].len() > 0,
    decreases lists.len() - c,
{
    if c < lists.len() && lists[c as int].len() == 0 {
        lemma_first_nonempty(lists, c + 1);
    }
}

/// Giving back a block that an allocation of class `c` handed out, of that
/// class, gives the heap back the free bytes it had before the allocation.
pub proof fn lemma_alloc_then_dealloc(l: Seq<Seq<usize>>, c: nat)
    requires
        c < l.len(),
        first_nonempty(l, c) < l.len(),
    ensures
        ({
            let i = first_nonempty(l, c);
            let b = l[i as int].last();
            let l1 = lists_after_alloc(l, i as int, c as int, b);
            free_bytes(merge_result(l1.update(c as int, l1[c as int].push(b)), b, c)) == free_bytes(l)
        }),
{
    let i = first_nonempty(l, c);
    lemma_first_nonempty(l, c);
    let b = l[i as int].last();
    let l1 = lists_after_alloc(l, i as int, c as int, b);
    lemma_alloc_bytes(l, i as int, c as int, b);
    let l2 = l1.update(c as int, l1[c as int].push(b));
    lemma_bytes_update(l1, c as int, l1[c as int].push(b), l1.len());
    lemma_merge_bytes(l2, b, c);
}

/// The class of the smallest block the heap hands out: a block holds at least a `usize`.
pub open spec fn word_class() -> nat {
    ceil_log2((usize::BITS / 8) as nat)
}

/// Changing one free list changes the byte count by the change in its length
/// times the block size of its class.
pub proof fn lemma_bytes_update(lists: Seq<Seq<usize>>, k: int, l2: Seq<usize>, n: nat)
    requires
        0 <= k < lists.len(),
        n <= lists.len(),
    ensures
        bytes_upto(lists.update(k, l2), n) == bytes_upto(lists, n) + (if k < n {
            (l2.len() - lists[k].len()) * pow2(k as nat)
        } else {
            0
        }),
        k < n && l2.len() == lists[k].len() + 1 ==> bytes_upto(lists.update(k, l2), n) == bytes_upto(
            lists,
            n,
        ) + pow2(k as nat),
        k < n && l2.len() + 1 == lists[k].len() ==> bytes_upto(lists.update(k, l2), n) + pow2(
            k as nat,
        ) == bytes_upto(lists, n),
        k < n && l2.len() + 2 == lists[k].len() ==> bytes_upto(lists.update(k, l2), n) + 2 * pow2(
            k as nat,
        ) == bytes_upto(lists, n),
    decreases n,
{
    let p = pow2(k as nat);
    let d = l2.len() - lists[k].len();
    if d == 1 {
        assert(d * p == p) by (nonlinear_arith)
            requires
                d == 1,
        ;
    }
    if d == -1 {
        assert(d * p == -p) by (nonlinear_arith)
            requires
                d == -1,
        ;
    }
    if d == -2 {
        assert(d * p == -2 * p) by (nonlinear_arith)
            requires
                d == -2,
        ;
    }
    if n > 0 {
        lemma_bytes_update(lists, k, l2, (n - 1) as nat);
        let p = pow2(k as nat);
        if k == n - 1 {
            assert(l2.len() * p == lists[k].len() * p + (l2.len() - lists[k].len()) * p)
                by (nonlinear_arith);
        }
    }
}

/// Replacing one list by a list of aligned blocks that fit keeps the lists well formed.
pub proof fn lemma_wf_update(lists: Seq<Seq<usize>>, k: int, l2: Seq<usize>)
    requires
        lists_wf(lists),
        0 <= k < lists.len(),
        forall|i: int| 0 <= i < l2.len() ==> block_aligned(#[trigger] l2[i], k as nat) && block_fits(l2[i], k as nat),
    ensures
        lists_wf(lists.update(k, l2)),
{
    let u = lists.update(k, l2);
    assert forall|j: int, i: int| 0 <= j < u.len() && 0 <= i < u[j].len() implies block_aligned(
        #[trigger] u[j][i],
        j as nat,
    ) && block_fits(u[j][i], j as nat) by {
        if j != k {
            assert(u[j][i] == lists[j][i]);
        }
    }
}

/// The merged block of an aligned block and its aligned buddy is aligned to the
/// next class and lies within the address space.
pub proof fn lemma_merged_block(ptr: usize, c: usize)
    requires
        c + 1 < usize::BITS,
        block_aligned(ptr, c as nat),
        block_fits(ptr, c as nat),
        block_fits(ptr ^ (1usize << c), c as nat),
    ensures
        block_aligned(ptr ^ (1usize << c), c as nat),
        ptr ^ (1usize << c) != ptr,
        block_aligned(if ptr <= ptr ^ (1usize << c) { ptr } else { ptr ^ (1usize << c) }, (c + 1) as nat),
        block_fits(if ptr <= ptr ^ (1usize << c) { ptr } else { ptr ^ (1usize << c) }, (c + 1) as nat),
{
    let buddy = ptr ^ (1usize << c);
    lemma_mask_is_mod(ptr, c);
    lemma_mask_is_mod(buddy, c);
    lemma_shl_is_pow2(c);
    lemma_buddy_bits(ptr, c);
    vstd::arithmetic::power2::lemma_pow2_unfold((c + 1) as nat);
    if ptr & (1usize << c) == 0 {
        lemma_mask_is_mod(ptr, (c + 1) as usize);
    } else {
        lemma_mask_is_mod(buddy, (c + 1) as usize);
    }
}

/// The size of a machine word in bytes.
pub open spec fn word_size() -> int {
    (usize::BITS / 8) as int
}

/// The first address of a region that the heap can use: its start rounded up to a word.
pub open spec fn region_first(region: Region) -> int {
    round_up(region.spec_start().0 as int, word_size())
}

/// The end of the part of a region that the heap can use: its end rounded down to a word.
pub open spec fn region_end(region: Region) -> int {
    round_down(region.spec_start().0 + region.spec_size(), word_size())
}

/// `new` keeps every block of `old`, at its place, and only adds blocks within `lo..hi`.
pub open spec fn lists_grow_within(old: Seq<Seq<usize>>, new: Seq<Seq<usize>>, lo: int, hi: int) -> bool {
    &&& new.len() == old.len()
    &&& forall|k: int| 0 <= k < old.len() ==> old[k].len() <= #[trigger] new[k].len()
    &&& forall|k: int, i: int| 0 <= k < old.len() && 0 <= i < old[k].len() ==> #[trigger] new[k][i] == old[k][i]
    &&& forall|k: int, i: int| 0 <= k < old.len() && old[k].len() <= i < new[k].len() ==> lo <= #[trigger] new[k][i] < hi
}

/// The largest block that can start at `current` and end at or before `end`: a
/// power of two that divides `current` and is at most `end - current`.
fn calculate_block_size(current: usize, end: usize) -> (b: usize)
    requires
        current != 0,
        current < end,
    ensures
        exists|j: nat| j < usize::BITS && pow2(j) == b,
        b <= end - current,
        current as nat % b as nat == 0,
        current % 8 == 0 && end - current >= 8 ==> b >= 8,
        current % 4 == 0 && end - current >= 4 ==> b >= 4,
{
    proof {
        lemma_low_bit(current);
        vstd::arithmetic::power2::lemma2_to64();
    }
    let low_bit = current & (!current + 1);
    let p = prev_power_of_two(end - current);
    let b = if low_bit < p {
        low_bit
    } else {
        p
    };
    proof {
        let i = choose|j: nat| j < usize::BITS && pow2(j) == low_bit;
        let k = choose|j: nat| j < usize::BITS && pow2(j) == p;
        if b == p {
            lemma_pow2_order(k, i);
            lemma_aligned_down(current as nat, i, k);
        }
        assert(current & 7usize == 0 ==> low_bit >= 8) by (bit_vector)
            requires
                current != 0,
                low_bit == current & ((!current + 1) as usize),
        ;
        assert(current & 3usize == 0 ==> low_bit >= 4) by (bit_vector)
            requires
                current != 0,
                low_bit == current & ((!current + 1) as usize),
        ;
        assert(current & 7usize == current % 8) by (bit_vector);
        assert(current & 3usize == current % 4) by (bit_vector);
        lemma_pow2_order(k, 2);
        lemma_pow2_order(k, 3);
        lemma_pow2_order(k, 1);
        lemma_pow2_order(k, 0);
    }
    b
}

/// A heap that hands out blocks by the buddy system: list `k` of `free_list`
/// holds the free blocks of `2^k` bytes.
pub struct Heap<const N: usize> {
    free_list: Vec<LinkedList>,
    user_size: usize,
    allocated: usize,
    total: usize,
}

impl<const N: usize> Heap<N> {
    /// The free lists, by class.
    pub closed spec fn lists(&self) -> Seq<Seq<usize>> {
        self.free_list@.map_values(|l: LinkedList| l@)
    }

    /// Bytes the callers asked for, summed over the successful allocations.
    pub closed spec fn spec_user_size(&self) -> usize {
        self.user_size
    }

    /// Bytes handed out, in whole blocks, summed over the successful allocations.
    pub closed spec fn spec_allocated(&self) -> usize {
        self.allocated
    }

    /// Bytes given to the heap by `add_region`.
    pub closed spec fn spec_total(&self) -> usize {
        self.total
    }

    /// There is one list per class, a class fits a shift of a `usize`, and every
    /// free block is aligned to its size and lies within the address space.
    pub closed spec fn wf(&self) -> bool {
        &&& self.free_list@.len() == N
        &&& N <= usize::BITS
        &&& lists_wf(self.lists())
    }

    /// An empty heap with `N` classes.
    pub fn new() -> (heap: Self)
        requires
            N <= usize::BITS,
        ensures
            heap.wf(),
            heap.lists() == Seq::new(N as nat, |k: int| Seq::<usize>::empty()),
            heap.spec_user_size() == 0,
            heap.spec_allocated() == 0,
            heap.spec_total() == 0,
    {
        let mut free_list: Vec<LinkedList> = Vec::new();
        let mut k: usize = 0;
        while k < N
            invariant
                k <= N,
                free_list@.len() == k,
                forall|j: int| 0 <= j < k ==> (#[trigger] free_list@[j])@ == Seq::<usize>::empty(),
            decreases N - k,
        {
            free_list.push(LinkedList::new());
            k = k + 1;
        }
        let heap = Heap { free_list, user_size: 0, allocated: 0, total: 0 };
        assert(heap.lists() =~= Seq::new(N as nat, |k: int| Seq::<usize>::empty()));
        heap
    }

    fn push_block(&mut self, class: usize, addr: usize)
        requires
            class < old(self).free_list@.len(),
        ensures
            final(self).free_list@.len() == old(self).free_list@.len(),
            final(self).lists() == old(self).lists().update(
                class as int,
                old(self).lists()[class as int].push(addr),
            ),
            final(self).user_size == old(self).user_size,
            final(self).allocated == old(self).allocated,
            final(self).total == old(self).total,
    {
        self.free_list[class].push(addr);
        assert(self.lists() =~= old(self).lists().update(
            class as int,
            old(self).lists()[class as int].push(addr),
        ));
    }

    fn pop_block(&mut self, class: usize) -> (block: Option<usize>)
        requires
            class < old(self).free_list@.len(),
        ensures
            final(self).free_list@.len() == old(self).free_list@.len(),
            old(self).lists()[class as int].len() == 0 ==> block is None && final(self).lists()
                == old(self).lists(),
            old(self).lists()[class as int].len() > 0 ==> block == Some(
                old(self).lists()[class as int].last(),
            ) && final(self).lists() == old(self).lists().update(
                class as int,
                old(self).lists()[class as int].drop_last(),
            ),
            final(self).user_size == old(self).user_size,
            final(self).allocated == old(self).allocated,
            final(self).total == old(self).total,
    {
        let block = self.free_list[class].pop();
        assert(self.lists() =~= old(self).lists().update(
            class as int,
            self.free_list@[class as int]@,
        ));
        block
    }

    /// Splits the top block of list `start_class` into halves, level by level,
    /// until a block of class `target_class` sits on top of list `target_class`.
    fn split_blocks(&mut self, start_class: usize, target_class: usize) -> (r: Result<(), ()>)
        requires
            old(self).wf(),
            target_class <= start_class < N,
            old(self).lists()[start_class as int].len() > 0,
        ensures
            r is Ok,
            final(self).wf(),
            final(self).lists() == split_state(
                old(self).lists(),
                start_class as int,
                target_class as int,
                old(self).lists()[start_class as int].last(),
            ),
            free_bytes(final(self).lists()) == free_bytes(old(self).lists()),
            final(self).user_size == old(self).user_size,
            final(self).allocated == old(self).allocated,
            final(self).total == old(self).total,
    {
        let ghost l0 = self.lists();
        let ghost i = start_class as int;
        let ghost b = l0[i].last();
        proof {
            assert(block_aligned(l0[i][l0[i].len() - 1], i as nat));
            assert(split_state(l0, i, i, b) =~= l0);
        }
        let mut j = start_class;
        while j > target_class
            invariant
                target_class <= j <= start_class < N,
                i == start_class,
                b == l0[i].last(),
                block_aligned(b, i as nat),
                block_fits(b, i as nat),
                self.wf(),
                self.lists() == split_state(l0, i, j as int, b),
                free_bytes(self.lists()) == free_bytes(l0),
                l0.len() == N,
                l0[i].len() > 0,
                self.user_size == old(self).user_size,
                self.allocated == old(self).allocated,
                self.total == old(self).total,
            decreases j,
        {
            let ghost before = self.lists();
            proof {
                if j as int == i {
                    assert(before[j as int] == l0[i]);
                } else {
                    assert(before[j as int] == l0[j as int].push(
                        (b + pow2(j as nat)) as usize,
                    ).push(b));
                }
            }
            assert(before[j as int].len() > 0 && before[j as int].last() == b);
            let popped = self.pop_block(j);
            match popped {
                Some(block) => {
                    assert(block == b);
                    proof {
                        lemma_shl_is_pow2((j - 1) as usize);
                        lemma_aligned_down(b as nat, i as nat, (j - 1) as nat);
                        lemma_aligned_down(b as nat, i as nat, j as nat);
                        vstd::arithmetic::power2::lemma_pow2_unfold(j as nat);
                    }
                    let half_block_size: usize = 1usize << (j - 1);
                    let new_block = block + half_block_size;
                    let ghost mid = self.lists();
                    self.push_block(j - 1, new_block);
                    let ghost mid2 = self.lists();
                    self.push_block(j - 1, block);
                    proof {
                        let c = (j - 1) as int;
                        lemma_bytes_update(before, j as int, before[j as int].drop_last(), N as nat);
                        lemma_bytes_update(mid, c, mid[c].push(new_block), N as nat);
                        lemma_bytes_update(mid2, c, mid2[c].push(block), N as nat);
                        vstd::arithmetic::power2::lemma_pow2_unfold(j as nat);
                        lemma_wf_update(before, j as int, before[j as int].drop_last());
                        lemma_wf_update(mid, c, mid[c].push(new_block));
                        lemma_wf_update(mid2, c, mid2[c].push(block));
                        let target = split_state(l0, i, c, b);
                        assert(new_block == (b + pow2(c as nat)) as usize);
                        assert forall|k: int| 0 <= k < N implies #[trigger] self.lists()[k] =~= target[k] by {
                            if k == j as int {
                                if j as int == i {
                                } else {
                                    assert(before[k] == l0[k].push((b + pow2(k as nat)) as usize).push(b));
                                    assert(before[k].drop_last() =~= l0[k].push((b + pow2(k as nat)) as usize));
                                }
                            } else if k == c {
                                assert(before[k] == l0[k]);
                            } else {
                                assert(self.lists()[k] == before[k]);
                            }
                        }
                        assert(self.lists() =~= target);
                    }
                    j = j - 1;
                },
                None => {
                    return Err(());
                },
            }
        }
        Ok(())
    }

    /// Takes the top block of list `class` and records the allocation.
    fn allocate_from_class(&mut self, class: usize, size: usize, user_size: usize) -> (r: Result<
        usize,
        (),
    >)
        requires
            old(self).wf(),
            class < N,
            old(self).lists()[class as int].len() > 0,
            old(self).lists()[class as int].last() != 0 ==> old(self).user_size + user_size
                <= usize::MAX && old(self).allocated + size <= usize::MAX,
        ensures
            final(self).wf(),
            final(self).lists() == old(self).lists().update(
                class as int,
                old(self).lists()[class as int].drop_last(),
            ),
            final(self).total == old(self).total,
            old(self).lists()[class as int].last() == 0 ==> r is Err && final(self).user_size
                == old(self).user_size && final(self).allocated == old(self).allocated,
            old(self).lists()[class as int].last() != 0 ==> r == Ok::<usize, ()>(
                old(self).lists()[class as int].last(),
            ) && final(self).user_size == old(self).user_size + user_size
                && final(self).allocated == old(self).allocated + size,
    {
        let ghost l0 = self.lists();
        let block = self.pop_block(class);
        proof {
            lemma_wf_update(l0, class as int, l0[class as int].drop_last());
        }
        match block {
            Some(b) => {
                if b == 0 {
                    Err(())
                } else {
                    self.user_size = self.user_size + user_size;
                    self.allocated = self.allocated + size;
                    Ok(b)
                }
            },
            None => Err(()),
        }
    }

    /// The block size and the size class of a request.
    fn block_size_class(layout: Layout) -> (r: (usize, usize))
        requires
            layout.wf(),
        ensures
            r.1 as nat == size_class(layout.spec_size(), layout.spec_align()),
            r.1 < usize::BITS,
            r.0 as nat == pow2(r.1 as nat),
            ({
                let ka = choose|k: nat| pow2(k) == layout.spec_align() as int;
                ka <= r.1 && pow2(ka) == layout.spec_align()
            }),
    {
        let ghost c_spec = size_class(layout.spec_size(), layout.spec_align());
        let ghost ka = choose|k: nat| pow2(k) == layout.spec_align() as int;
        proof {
            lemma_word_limits();
            lemma_ceil_log2_of_pow2(ka);
            lemma_pow2_exponent_bound(ka);
            lemma_ceil_log2_of_pow2(if usize::BITS == 64 { 3nat } else { 2nat });
            vstd::arithmetic::power2::lemma_pow2_pos(ka);
            assert(ceil_log2(layout.spec_align() as nat) == ka);
            assert(ka <= c_spec);
        }
        let size0 = next_power_of_two(layout.size());
        let word = core::mem::size_of::<usize>();
        proof {
            broadcast use vstd::layout::layout_of_primitives;
        }
        let a = if layout.align() > word {
            layout.align()
        } else {
            word
        };
        let size = if size0 > a {
            size0
        } else {
            a
        };
        proof {
            let wk = if usize::BITS == 64 { 3nat } else { 2nat };
            let sk = ceil_log2(layout.spec_size() as nat);
            lemma_pow2_order(sk, ka);
            lemma_pow2_order(sk, wk);
            lemma_pow2_order(ka, wk);
            if size == size0 {
                assert(pow2(sk) == size);
            } else if size == layout.spec_align() {
                assert(pow2(ka) == size);
            } else {
                assert(pow2(wk) == size);
            }
            assert(exists|j: nat| j < usize::BITS && pow2(j) == size);
        }
        let class = log2_of_power(size);
        proof {
            let wk = if usize::BITS == 64 { 3nat } else { 2nat };
            let sk = ceil_log2(layout.spec_size() as nat);
            lemma_pow2_order(class as nat, sk);
            lemma_pow2_order(class as nat, ka);
            lemma_pow2_order(class as nat, wk);
            assert(class as nat == c_spec);
        }
        (size, class)
    }

    /// Hands out a free block for `layout`.
    ///
    /// The request is rounded up to its size class (see [`size_class`]). The
    /// first class at or above it that holds a free block gives up its top block,
    /// which is split in halves down to the size class; the upper halves stay
    /// free and the lower one is handed out. The call fails when no class holds a
    /// block, and when the block found stands at address 0.
    pub fn allocate(&mut self, layout: Layout) -> (r: Result<usize, ()>)
        requires
            old(self).wf(),
            layout.wf(),
            ({
                let c = size_class(layout.spec_size(), layout.spec_align());
                let l = old(self).lists();
                let i = first_nonempty(l, c);
                (i < N && l[i as int].last() != 0) ==> old(self).spec_user_size()
                    + layout.spec_size() <= usize::MAX && old(self).spec_allocated() + pow2(c)
                    <= usize::MAX
            }),
        ensures
            final(self).wf(),
            final(self).spec_total() == old(self).spec_total(),
            ({
                let c = size_class(layout.spec_size(), layout.spec_align());
                let l = old(self).lists();
                first_nonempty(l, c) >= N ==> {
                    &&& r is Err
                    &&& final(self).lists() == l
                    &&& final(self).spec_user_size() == old(self).spec_user_size()
                    &&& final(self).spec_allocated() == old(self).spec_allocated()
                }
            }),
            ({
                let c = size_class(layout.spec_size(), layout.spec_align());
                let l = old(self).lists();
                let i = first_nonempty(l, c);
                i < N ==> final(self).lists() == lists_after_alloc(l, i as int, c as int, l[i as int].last())
                    && free_bytes(final(self).lists()) + pow2(c) == free_bytes(l)
            }),
            ({
                let c = size_class(layout.spec_size(), layout.spec_align());
                let l = old(self).lists();
                let i = first_nonempty(l, c);
                i < N && l[i as int].last() == 0 ==> r is Err && final(self).spec_user_size()
                    == old(self).spec_user_size() && final(self).spec_allocated()
                    == old(self).spec_allocated()
            }),
            ({
                let c = size_class(layout.spec_size(), layout.spec_align());
                let l = old(self).lists();
                let i = first_nonempty(l, c);
                let b = l[i as int].last();
                i < N && b != 0 ==> r == Ok::<usize, ()>(b) && b as nat % pow2(c) == 0 && b
                    % layout.spec_align() == 0 && b + pow2(c) <= usize::MAX as nat + 1
                    && final(self).spec_user_size() == old(self).spec_user_size()
                    + layout.spec_size() && final(self).spec_allocated()
                    == old(self).spec_allocated() + pow2(c)
            }),
    {
        let ghost l0 = self.lists();
        let ghost c_spec = size_class(layout.spec_size(), layout.spec_align());
        let ghost ka = choose|k: nat| pow2(k) == layout.spec_align() as int;
        let (size, class) = Self::block_size_class(layout);
        let mut i = class;
        while i < N
            invariant
                self.wf(),
                self.lists() == l0,
                self.user_size == old(self).user_size,
                self.allocated == old(self).allocated,
                self.total == old(self).total,
                l0.len() == N,
                class <= i,
                class as nat == c_spec,
                c_spec == size_class(layout.spec_size(), layout.spec_align()),
                l0 == old(self).lists(),
                first_nonempty(l0, c_spec) == first_nonempty(l0, i as nat),
                ka <= c_spec,
                pow2(ka) == layout.spec_align(),
                size as nat == pow2(class as nat),
                (first_nonempty(l0, c_spec) < N && l0[first_nonempty(l0, c_spec) as int].last()
                    != 0) ==> self.user_size + layout.spec_size() <= usize::MAX && self.allocated
                    + pow2(c_spec) <= usize::MAX,
            decreases N - i,
        {
            if !self.free_list[i].is_empty() {
                assert(first_nonempty(l0, i as nat) == i);
                if self.split_blocks(i, class).is_err() {
                    return Err(());
                }
                let ghost mid = self.lists();
                let ghost b = l0[i as int].last();
                proof {
                    assert(block_aligned(l0[i as int][l0[i as int].len() - 1], i as nat));
                    if i > class {
                        assert(mid[class as int] == l0[class as int].push((b + pow2(class as nat)) as usize).push(b));
                    } else {
                        assert(mid[class as int] == l0[class as int]);
                    }
                    assert(mid[class as int].last() == b);
                }
                let r = self.allocate_from_class(class, size, layout.size());
                proof {
                    let target = lists_after_alloc(l0, i as int, class as int, b);
                    assert forall|k: int| 0 <= k < N implies #[trigger] self.lists()[k] =~= target[k] by {
                        if k == class as int && i > class {
                            assert(mid[k].drop_last() =~= l0[k].push((b + pow2(k as nat)) as usize));
                        }
                    }
                    assert(self.lists() =~= target);
                    lemma_bytes_update(mid, class as int, mid[class as int].drop_last(), N as nat);
                    lemma_aligned_down(b as nat, i as nat, class as nat);
                    lemma_aligned_down(b as nat, class as nat, ka);
                    assert(free_bytes(self.lists()) + pow2(c_spec) == free_bytes(l0));
                    assert(b != 0 ==> b as nat % pow2(c_spec) == 0);
                    assert(b != 0 ==> b % layout.spec_align() == 0);
                    assert(b != 0 ==> b + pow2(c_spec) <= usize::MAX as nat + 1);
                    assert(self.lists() == lists_after_alloc(l0, i as int, c_spec as int, b));
                    assert(b != 0 ==> r == Ok::<usize, ()>(b));
                    assert(b != 0 ==> self.spec_user_size() == old(self).spec_user_size() + layout.spec_size());
                    assert(b != 0 ==> self.spec_allocated() == old(self).spec_allocated() + pow2(c_spec));
                    assert(b == 0 ==> r is Err);
                    assert(first_nonempty(l0, c_spec) == i);
                    let ii = first_nonempty(l0, c_spec);
                    assert(!(ii >= N));
                    assert(self.lists() == lists_after_alloc(l0, ii as int, c_spec as int, l0[ii as int].last()));
                    assert(b == 0 ==> self.spec_user_size() == old(self).spec_user_size());
                    assert(b == 0 ==> self.spec_allocated() == old(self).spec_allocated());
                    assert(self.spec_total() == old(self).spec_total());
                    assert(self.wf());
                }
                return r;
            }
            assert(first_nonempty(l0, i as nat) == first_nonempty(l0, (i + 1) as nat));
            i = i + 1;
        }
        Err(())
    }

    /// Looks for the block `buddy` in list `class`, from the top down, and
    /// unlinks it when found.
    fn find_buddy(&mut self, class: usize, buddy: usize) -> (found: bool)
        requires
            class < old(self).free_list@.len(),
        ensures
            final(self).free_list@.len() == old(self).free_list@.len(),
            found == old(self).lists()[class as int].contains(buddy),
            found ==> final(self).lists() == old(self).lists().update(
                class as int,
                old(self).lists()[class as int].remove(
                    old(self).lists()[class as int].index_of_last(buddy)->Some_0,
                ),
            ),
            !found ==> final(self).lists() == old(self).lists(),
            final(self).user_size == old(self).user_size,
            final(self).allocated == old(self).allocated,
            final(self).total == old(self).total,
    {
        let ghost l0 = self.lists();
        let ghost list = l0[class as int];
        let mut found_buddy = false;
        let mut blocks = self.free_list[class].iter_mut();
        proof {
            list.index_of_last_ensures(buddy);
        }
        loop
            invariant_except_break
                !found_buddy,
                blocks.wf(),
                class < l0.len(),
                list == l0[class as int],
                self.lists() == l0,
                self.free_list@.len() == l0.len(),
                blocks.remaining() == list.subrange(0, blocks.remaining().len() as int),
                blocks.remaining().len() <= list.len(),
                forall|j: int| blocks.remaining().len() <= j < list.len() ==> list[j] != buddy,
                self.user_size == old(self).user_size,
                self.allocated == old(self).allocated,
                self.total == old(self).total,
            ensures
                self.free_list@.len() == l0.len(),
                found_buddy == list.contains(buddy),
                found_buddy ==> self.lists() == l0.update(
                    class as int,
                    list.remove(list.index_of_last(buddy)->Some_0),
                ),
                !found_buddy ==> self.lists() == l0,
                self.user_size == old(self).user_size,
                self.allocated == old(self).allocated,
                self.total == old(self).total,
            decreases blocks.remaining().len(),
        {
            let ghost before = blocks.remaining();
            match blocks.next() {
                Some(block) => {
                    if block.value() == buddy {
                        let ghost pos = block.position();
                        proof {
                            assert(list[pos] == buddy);
                            assert(pos == before.len() - 1);
                            list.index_of_last_ensures(buddy);
                            assert(list.contains(buddy));
                            let idx = list.index_of_last(buddy)->Some_0;
                            if idx < pos {
                            } else if idx > pos {
                                assert(idx >= before.len());
                                assert(list[idx] != buddy);
                            }
                            assert(list.index_of_last(buddy) == Some(pos));
                            assert(self.free_list@[class as int]@ == list);
                        }
                        block.pop(&mut self.free_list[class]);
                        proof {
                            assert(self.lists() =~= l0.update(class as int, list.remove(pos)));
                        }
                        found_buddy = true;
                        break;
                    }
                },
                None => {
                    proof {
                        assert forall|j: int| 0 <= j < list.len() implies list[j] != buddy by {}
                    }
                    break;
                },
            }
        }
        found_buddy
    }

    /// Merges the freed block `current_ptr`, on top of list `current_class`,
    /// with its buddy for as long as the buddy is free.
    fn merge_buddies(&mut self, current_ptr: usize, current_class: usize)
        requires
            old(self).wf(),
            current_class < N,
            old(self).lists()[current_class as int].len() > 0,
            old(self).lists()[current_class as int].last() == current_ptr,
            block_aligned(current_ptr, current_class as nat),
            block_fits(current_ptr, current_class as nat),
        ensures
            final(self).wf(),
            final(self).lists() == merge_result(old(self).lists(), current_ptr, current_class as nat),
            free_bytes(final(self).lists()) == free_bytes(old(self).lists()),
            final(self).user_size == old(self).user_size,
            final(self).allocated == old(self).allocated,
            final(self).total == old(self).total,
    {
        let ghost l0 = self.lists();
        let ghost target = merge_result(l0, current_ptr, current_class as nat);
        let mut current_ptr = current_ptr;
        let mut current_class = current_class;
        while current_class < self.free_list.len() - 1
            invariant_except_break
                self.wf(),
                current_class < N,
                self.lists()[current_class as int].len() > 0,
                self.lists()[current_class as int].last() == current_ptr,
                block_aligned(current_ptr, current_class as nat),
                block_fits(current_ptr, current_class as nat),
                merge_result(self.lists(), current_ptr, current_class as nat) == target,
                free_bytes(self.lists()) == free_bytes(l0),
                self.user_size == old(self).user_size,
                self.allocated == old(self).allocated,
                self.total == old(self).total,
            ensures
                self.wf(),
                self.lists() == target,
                free_bytes(self.lists()) == free_bytes(l0),
                self.user_size == old(self).user_size,
                self.allocated == old(self).allocated,
                self.total == old(self).total,
            decreases N - current_class,
        {
            proof {
                lemma_shl_is_pow2(current_class);
            }
            let buddy = current_ptr ^ (1usize << current_class);
            let ghost before = self.lists();
            let ghost c = current_class as int;
            let ghost ptr = current_ptr;
            if self.find_buddy(current_class, buddy) {
                let ghost idx = before[c].index_of_last(buddy)->Some_0;
                proof {
                    before[c].index_of_last_ensures(buddy);
                    assert(block_fits(before[c][idx], c as nat));
                    lemma_merged_block(ptr, current_class);
                    assert(before[c][before[c].len() - 1] == ptr);
                }
                let ghost l1 = self.lists();
                self.pop_block(current_class);
                let ghost l2 = self.lists();
                current_ptr = if current_ptr <= buddy {
                    current_ptr
                } else {
                    buddy
                };
                current_class = current_class + 1;
                self.push_block(current_class, current_ptr);
                proof {
                    let l3 = before.update(c, before[c].remove(idx).drop_last()).update(
                        c + 1,
                        before[c + 1].push(current_ptr),
                    );
                    assert(self.lists() =~= l3);
                    assert(merge_result(before, ptr, c as nat) == merge_result(l3, current_ptr, (c + 1) as nat));
                    before[c].remove_ensures(idx);
                    lemma_bytes_update(before, c, l2[c], N as nat);
                    assert(l2 =~= before.update(c, l2[c]));
                    lemma_bytes_update(l2, c + 1, l2[c + 1].push(current_ptr), N as nat);
                    vstd::arithmetic::power2::lemma_pow2_unfold((c + 1) as nat);
                    assert forall|i: int| 0 <= i < l2[c].len() implies block_aligned(#[trigger] l2[c][i], c as nat) && block_fits(l2[c][i], c as nat) by {
                        if i < idx {
                            assert(l2[c][i] == before[c][i]);
                        } else {
                            assert(l2[c][i] == before[c][i + 1]);
                        }
                    }
                    lemma_wf_update(before, c, l2[c]);
                    lemma_wf_update(l2, c + 1, l2[c + 1].push(current_ptr));
                }
            } else {
                proof {
                    before[c].index_of_last_ensures(buddy);
                }
                break;
            }
        }
    }

    /// Gives back the block at `ptr`, handed out for `layout`, and merges it
    /// with its buddy for as long as the buddy is free; the counts of memory
    /// in use drop by the block's size and by the size asked for.
    pub fn dealloc(&mut self, ptr: usize, layout: Layout)
        requires
            old(self).wf(),
            layout.wf(),
            ptr != 0,
            old(self).spec_user_size() >= layout.spec_size(),
            old(self).spec_allocated() >= pow2(size_class(layout.spec_size(), layout.spec_align())),
            size_class(layout.spec_size(), layout.spec_align()) < N,
            block_aligned(ptr, size_class(layout.spec_size(), layout.spec_align())),
            block_fits(ptr, size_class(layout.spec_size(), layout.spec_align())),
        ensures
            final(self).wf(),
            ({
                let c = size_class(layout.spec_size(), layout.spec_align());
                let l = old(self).lists();
                &&& final(self).lists() == merge_result(
                    l.update(c as int, l[c as int].push(ptr)),
                    ptr,
                    c,
                )
                &&& free_bytes(final(self).lists()) == free_bytes(l) + pow2(c)
            }),
            final(self).spec_user_size() == old(self).spec_user_size() - layout.spec_size(),
            final(self).spec_allocated() == old(self).spec_allocated() - pow2(
                size_class(layout.spec_size(), layout.spec_align()),
            ),
            final(self).spec_total() == old(self).spec_total(),
    {
        let ghost l0 = self.lists();
        let (size, class) = Self::block_size_class(layout);
        self.user_size = self.user_size - layout.size();
        self.allocated = self.allocated - size;
        self.push_block(class, ptr);
        proof {
            lemma_bytes_update(l0, class as int, l0[class as int].push(ptr), N as nat);
            lemma_wf_update(l0, class as int, l0[class as int].push(ptr));
        }
        self.merge_buddies(ptr, class);
    }

    /// Adds the memory of `region` to the heap: from its start rounded up to a
    /// word to its end rounded down to a word, cut into blocks, each the largest
    /// power of two that divides its address and fits in what is left.
    pub fn add_region(&mut self, region: Region)
        requires
            old(self).wf(),
            region.spec_start().0 + region.spec_size() + word_size() <= usize::MAX,
            region_first(region) <= region_end(region),
            region_first(region) != 0 || region_end(region) - region_first(region) < word_size(),
            N == usize::BITS || region_end(region) - region_first(region) < pow2(N as nat),
            old(self).spec_total() + (region_end(region) - region_first(region)) <= usize::MAX,
        ensures
            final(self).wf(),
            free_bytes(final(self).lists()) == free_bytes(old(self).lists()) + (region_end(region)
                - region_first(region)),
            final(self).spec_total() == old(self).spec_total() + (region_end(region)
                - region_first(region)),
            final(self).spec_user_size() == old(self).spec_user_size(),
            final(self).spec_allocated() == old(self).spec_allocated(),
            lists_grow_within(
                old(self).lists(),
                final(self).lists(),
                region_first(region),
                region_end(region),
            ),
    {
        let ghost l0 = self.lists();
        proof {
            lemma_word_limits();
            broadcast use vstd::layout::layout_of_primitives;
        }
        let word = core::mem::size_of::<usize>();
        let region_start = region.start().0 as usize;
        let start = align_up(region_start, word);
        let end = align_down(region_start + region.size(), word);
        let ghost wk: nat = if usize::BITS == 64 { 3nat } else { 2nat };
        proof {
            vstd::arithmetic::power2::lemma2_to64();
            let x = region_start + region.spec_size();
            if word == 8 {
                assert(end <= x && end % 8 == 0);
                assert(start >= region_start && start % 8 == 0);
            } else {
                assert(end <= x && end % 4 == 0);
                assert(start >= region_start && start % 4 == 0);
            }
            assert(lists_grow_within(l0, self.lists(), start as int, start as int));
        }
        let mut current = start;
        while current + word <= end
            invariant
                self.wf(),
                l0.len() == N,
                word as nat == pow2(wk),
                word == 4 || word == 8,
                wk == 2 || wk == 3,
                start == region_first(region),
                end == region_end(region),
                end + word <= usize::MAX,
                start <= current <= end,
                current % word == 0,
                end % word == 0,
                start != 0 || end - start < word,
                N == usize::BITS || end - start < pow2(N as nat),
                free_bytes(self.lists()) == free_bytes(l0) + (current - start),
                self.total == old(self).total + (current - start),
                old(self).total + (end - start) <= usize::MAX,
                self.user_size == old(self).user_size,
                self.allocated == old(self).allocated,
                lists_grow_within(l0, self.lists(), start as int, current as int),
            decreases end - current,
        {
            let block_size = calculate_block_size(current, end);
            let class = log2_of_power(block_size);
            proof {
                if N != usize::BITS {
                    lemma_pow2_order(class as nat, N as nat);
                }
                lemma_pow2_order(wk, class as nat);
                if class as nat >= wk {
                    lemma_aligned_down(block_size as nat, class as nat, wk);
                }
            }
            let ghost before = self.lists();
            self.push_block(class, current);
            proof {
                lemma_bytes_update(before, class as int, before[class as int].push(current), N as nat);
                lemma_wf_update(before, class as int, before[class as int].push(current));
            }
            proof {
                assert(block_size as nat % word as nat == 0);
                vstd::arithmetic::div_mod::lemma_mod_adds(current as int, block_size as int, word as int);
                assert((current + block_size) % (word as int) == 0);
            }
            current = current + block_size;
            self.total = self.total + block_size;
        }
        proof {
            if word == 8 {
                assert(current == end);
            } else {
                assert(current == end);
            }
        }
    }
}

} // verus!
