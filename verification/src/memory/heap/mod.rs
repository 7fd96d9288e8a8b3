use vstd::prelude::*;
use vstd::arithmetic::power2::pow2;
use crate::memory::addr::{ToPhysAddr, VirtAddr};
use crate::memory::allocation::region::Region;
use crate::memory::heap::heap::{free_bytes, word_size, Heap};
use crate::memory::heap::math::{round_down, round_up};
use crate::memory::PAGE_SIZE;

pub mod heap;
pub mod math;

verus! {

/// The first address of `pages` pages from `start` that the heap uses: the
/// start rounded up to a word.
pub open spec fn heap_first(start: u64) -> int {
    round_up(start as int, word_size())
}

/// The end of the part of `pages` pages from `start` that the heap uses: the
/// end rounded down to a word.
pub open spec fn heap_end(start: u64, pages: usize) -> int {
    round_down(start + pages * PAGE_SIZE, word_size())
}

/// A heap of 32 size classes over the `pages` pages from `start_addr`, once
/// they are mapped: the memory from the start rounded up to a word to the end
/// rounded down to a word, cut into blocks.
pub fn init(start_addr: VirtAddr, pages: usize) -> (heap: Heap<32>)
    requires
        pages * PAGE_SIZE <= usize::MAX,
        start_addr.0 + pages * PAGE_SIZE + word_size() <= usize::MAX,
        heap_first(start_addr.0) <= heap_end(start_addr.0, pages),
        heap_first(start_addr.0) != 0 || heap_end(start_addr.0, pages) - heap_first(start_addr.0)
            < word_size(),
        heap_end(start_addr.0, pages) - heap_first(start_addr.0) < pow2(32),
    ensures
        heap.wf(),
        free_bytes(heap.lists()) == heap_end(start_addr.0, pages) - heap_first(start_addr.0),
        heap.spec_total() == heap_end(start_addr.0, pages) - heap_first(start_addr.0),
        heap.spec_user_size() == 0,
        heap.spec_allocated() == 0,
{
    let region_size = pages * PAGE_SIZE;
    let region = Region::new(start_addr.to_phys_addr(), region_size);
    let mut heap: Heap<32> = Heap::new();
    proof {
        assert(free_bytes(heap.lists()) == 0) by {
            let l = heap.lists();
            assert forall|n: nat| n <= 32 implies #[trigger] crate::memory::heap::heap::bytes_upto(l, n) == 0 by {
                lemma_bytes_zero(l, n);
            }
        }
    }
    heap.add_region(region);
    heap
}

proof fn lemma_bytes_zero(l: Seq<Seq<usize>>, n: nat)
    requires
        n <= l.len(),
        forall|k: int| 0 <= k < l.len() ==> #[trigger] l[k].len() == 0,
    ensures
        crate::memory::heap::heap::bytes_upto(l, n) == 0,
    decreases n,
{
    if n > 0 {
        lemma_bytes_zero(l, (n - 1) as nat);
    }
}

} // verus!
