use vstd::prelude::*;
use crate::memory::addr::{PhysAddr, VirtAddr};
use crate::memory::paging::table::{
    clone_table, frame_of, map_result, translate, user_map_result, MapError, PageTablePtr, PageTables, TableLevel,
};

verus! {

/// The manager of the page tables of an address space, from its top table.
#[derive(Debug, Clone, Copy)]
pub struct PageTableManager {
    /// The top table of the hierarchy.
    pub pml4: PageTablePtr,
}

impl PageTableManager {
    /// The manager of the hierarchy whose top table is at `pml4`.
    pub fn new(pml4: u64) -> (m: PageTableManager)
        ensures
            m.pml4.ptr == pml4,
            m.pml4.level == TableLevel::PML4,
    {
        PageTableManager { pml4: PageTablePtr::new(pml4, TableLevel::PML4) }
    }

    /// Maps `virt` to the page at `phys`: walks the hierarchy down from the
    /// top table, creating missing tables from `frames`, and sets the entry
    /// of the page table to `phys`, present and writable, and open to user
    /// mode where `user` (see [`map_result`]). Nothing changes where an
    /// address on the way holds no table or the frames run out.
    pub fn map_memory(
        &self,
        tables: &mut PageTables,
        virt: VirtAddr,
        phys: PhysAddr,
        frames: &mut Vec<u64>,
        user: bool,
    ) -> (r: Result<(), MapError>)
        requires
            old(tables).wf(),
            (old(tables)@.addrs.len() + 3) * 512 <= usize::MAX,
        ensures
            final(tables).wf(),
            match map_result(old(tables)@, self.pml4.ptr, virt, phys.0, old(frames)@, user) {
                Ok(q) => r is Ok && final(tables)@ == q.0 && final(frames)@ == q.1,
                Err(x) => r == Err::<(), MapError>(x) && final(tables)@ == old(tables)@ && final(frames)@ == old(
                    frames,
                )@,
            },
    {
        tables.map_page(self.pml4.ptr, virt, phys.0, frames, user)
    }

    /// The frame of the page that `virt` falls in (see [`translate`]);
    /// `None` where an entry on the way is missing.
    pub fn phys_addr(&self, tables: &PageTables, virt: VirtAddr) -> (p: Option<PhysAddr>)
        requires
            tables.wf(),
        ensures
            match translate(tables@, self.pml4.ptr, virt) {
                Some(e) => p == Some(PhysAddr(frame_of(e))),
                None => p is None,
            },
    {
        match tables.get_entry_for_address(self.pml4.ptr, virt) {
            Some(e) => Some(PhysAddr(e.0 & !0xFFF)),
            None => None,
        }
    }

    /// Maps `virt` to the page at `phys` for user mode in the hierarchy
    /// whose top table is at `page_table`: the entries on the way, which
    /// must be present, are opened to user mode, and the entry of the page
    /// table is set to `phys`, present, writable and open to user mode (see
    /// [`user_map_result`]). Nothing changes where an entry on the way is
    /// missing.
    pub fn map_user_page(tables: &mut PageTables, page_table: u64, virt_addr: VirtAddr, phys_addr: PhysAddr) -> (r:
        Result<(), MapError>)
        requires
            old(tables).wf(),
        ensures
            final(tables).wf(),
            match user_map_result(old(tables)@, page_table, virt_addr, phys_addr.0) {
                Ok(w) => r is Ok && final(tables)@ == w,
                Err(x) => r == Err::<(), MapError>(x) && final(tables)@ == old(tables)@,
            },
    {
        tables.map_user(page_table, virt_addr, phys_addr.0)
    }

    /// Copies the hierarchy whose top table is at `src`, with the tables
    /// below it, into new tables taken from `frames` (see [`clone_table`]):
    /// the present entries of page tables are copied as they are, and the
    /// entries above lead, present and writable, to the copies. The address
    /// of the new top table; nothing changes where a table is missing or the
    /// frames run out.
    pub fn clone_pml4(tables: &mut PageTables, src: u64, frames: &mut Vec<u64>) -> (r: Result<u64, MapError>)
        requires
            old(tables).wf(),
            (old(tables)@.addrs.len() + old(frames)@.len()) * 512 <= usize::MAX,
        ensures
            final(tables).wf(),
            match clone_table(old(tables)@, src, 3, old(frames)@) {
                Ok(q) => r == Ok::<u64, MapError>(q.1) && final(tables)@ == q.0 && final(frames)@ == q.2,
                Err(x) => r == Err::<u64, MapError>(x) && final(tables)@ == old(tables)@ && final(frames)@ == old(
                    frames,
                )@,
            },
    {
        tables.clone_hierarchy(src, frames)
    }
}

} // verus!
