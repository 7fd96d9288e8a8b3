use vstd::prelude::*;
use vstd::arithmetic::power2::pow2;
use crate::memory::heap::heap::{
    first_nonempty, free_bytes, lists_after_alloc, merge_result, size_class, Heap,
};
use crate::memory::heap::math::{block_aligned, block_fits};
use crate::memory::layout::Layout;

verus! {

/// Whether `heap` can hand out a block for a request of `size` bytes aligned
/// to `align`: some class at or above the request's size class holds a free
/// block, and the block found is not at address 0.
pub open spec fn can_allocate(heap: Heap<32>, size: usize, align: usize) -> bool {
    let c = size_class(size, align);
    let l = heap.lists();
    let i = first_nonempty(l, c);
    &&& i < 32
    &&& l[i as int].last() != 0
    &&& heap.spec_user_size() + size <= usize::MAX
    &&& heap.spec_allocated() + pow2(c) <= usize::MAX
}

/// The block `heap` hands out for a request of `size` bytes aligned to `align`.
pub open spec fn block_for(heap: Heap<32>, size: usize, align: usize) -> usize {
    let l = heap.lists();
    l[first_nonempty(l, size_class(size, align)) as int].last()
}

/// The heap once it handed out the block for a request of `size` bytes
/// aligned to `align`, as its free lists.
pub open spec fn lists_after(heap: Heap<32>, size: usize, align: usize) -> Seq<Seq<usize>> {
    let c = size_class(size, align);
    let l = heap.lists();
    let i = first_nonempty(l, c);
    lists_after_alloc(l, i as int, c as int, l[i as int].last())
}

/// The allocator of the kernel: a buddy heap with 32 size classes.
pub struct GlobalAllocator {
    heap: Heap<32>,
}

impl GlobalAllocator {
    /// The heap the allocator hands blocks out from.
    pub closed spec fn heap(&self) -> Heap<32> {
        self.heap
    }

    /// An allocator over an empty heap.
    pub fn new() -> (a: Self)
        ensures
            a.heap().wf(),
            a.heap().lists() == Seq::new(32, |k: int| Seq::<usize>::empty()),
            a.heap().spec_user_size() == 0,
            a.heap().spec_allocated() == 0,
            a.heap().spec_total() == 0,
    {
        GlobalAllocator { heap: Heap::new() }
    }

    /// Puts `heap` in place of the allocator's heap.
    pub fn init(&mut self, heap: Heap<32>)
        ensures
            final(self).heap() == heap,
    {
        self.heap = heap;
    }

    /// Hands out a block for `layout`: the one [`Heap::allocate`] gives.
    pub fn allocate(&mut self, layout: Layout) -> (ptr: usize)
        requires
            old(self).heap().wf(),
            layout.wf(),
            can_allocate(old(self).heap(), layout.spec_size(), layout.spec_align()),
        ensures
            final(self).heap().wf(),
            ptr == block_for(old(self).heap(), layout.spec_size(), layout.spec_align()),
            final(self).heap().lists() == lists_after(old(self).heap(), layout.spec_size(), layout.spec_align()),
            final(self).heap().spec_user_size() == old(self).heap().spec_user_size() + layout.spec_size(),
            final(self).heap().spec_allocated() == old(self).heap().spec_allocated() + pow2(
                size_class(layout.spec_size(), layout.spec_align()),
            ),
            final(self).heap().spec_total() == old(self).heap().spec_total(),
    {
        match self.heap.allocate(layout) {
            Ok(ptr) => ptr,
            Err(_) => {
                proof {
                    assert(false);
                }
                0
            },
        }
    }

    /// Hands out one page: a block of 4096 bytes aligned to 4096.
    pub fn alloc_page(&mut self) -> (ptr: usize)
        requires
            old(self).heap().wf(),
            can_allocate(old(self).heap(), 4096, 4096),
        ensures
            final(self).heap().wf(),
            ptr == block_for(old(self).heap(), 4096, 4096),
            final(self).heap().lists() == lists_after(old(self).heap(), 4096, 4096),
            final(self).heap().spec_total() == old(self).heap().spec_total(),
    {
        let layout = Layout::from_size_align(4096, 4096);
        proof {
            vstd::arithmetic::power2::lemma2_to64();
        }
        match layout {
            Some(layout) => self.allocate(layout),
            None => {
                proof {
                    assert(false);
                }
                0
            },
        }
    }

    /// Gives back the block at `ptr`, handed out for `layout`; a null `ptr`
    /// is ignored.
    pub fn dealloc(&mut self, ptr: usize, layout: Layout)
        requires
            old(self).heap().wf(),
            layout.wf(),
            size_class(layout.spec_size(), layout.spec_align()) < 32,
            ptr != 0 ==> block_aligned(ptr, size_class(layout.spec_size(), layout.spec_align())),
            ptr != 0 ==> block_fits(ptr, size_class(layout.spec_size(), layout.spec_align())),
            ptr != 0 ==> old(self).heap().spec_user_size() >= layout.spec_size(),
            ptr != 0 ==> old(self).heap().spec_allocated() >= pow2(
                size_class(layout.spec_size(), layout.spec_align()),
            ),
        ensures
            final(self).heap().wf(),
            ptr == 0 ==> final(self).heap() == old(self).heap(),
            ptr != 0 ==> ({
                let c = size_class(layout.spec_size(), layout.spec_align());
                let l = old(self).heap().lists();
                &&& final(self).heap().lists() == merge_result(
                    l.update(c as int, l[c as int].push(ptr)),
                    ptr,
                    c,
                )
                &&& free_bytes(final(self).heap().lists()) == free_bytes(l) + pow2(c)
                &&& final(self).heap().spec_user_size() == old(self).heap().spec_user_size() - layout.spec_size()
                &&& final(self).heap().spec_allocated() == old(self).heap().spec_allocated() - pow2(c)
                &&& final(self).heap().spec_total() == old(self).heap().spec_total()
            }),
    {
        if ptr != 0 {
            self.heap.dealloc(ptr, layout);
        }
    }
}

} // verus!
