use vstd::prelude::*;
use crate::cpu::gdt::{
    privilege_bits, tss_at, GlobalDescriptorTable, PrivilegeLevel, SegmentSelector,
};

verus! {

/// The task state segment of 64-bit mode: the stacks the processor switches
/// to on a change of privilege level or through the interrupt stack table,
/// and the bitmap of permitted I/O ports.
pub struct TaskStateSegment {
    /// Reserved: zero.
    pub reserved0: u32,
    /// The stack pointers loaded on a switch to levels 0, 1 and 2.
    pub privilege_stack_table: [u64; 3],
    /// Reserved: zero.
    pub reserved1: u64,
    /// The stack pointers of the interrupt stack table.
    pub interrupt_stack_table: [u64; 7],
    /// Reserved: zero.
    pub reserved2: u64,
    /// Reserved: zero.
    pub reserved3: u16,
    /// Where the I/O permission bitmap starts, from the start of the segment.
    pub io_bitmap_offset: u16,
    /// The I/O permission bitmap.
    pub io_bitmap: Vec<u8>,
}

impl TaskStateSegment {
    /// A segment whose every stack pointer is `kernel_rsp`, with an I/O
    /// bitmap of 8193 clear bytes at offset 112.
    pub fn new(kernel_rsp: u64) -> (tss: Self)
        ensures
            forall|i: int| 0 <= i < 3 ==> tss.privilege_stack_table[i] == kernel_rsp,
            forall|i: int| 0 <= i < 7 ==> tss.interrupt_stack_table[i] == kernel_rsp,
            tss.io_bitmap_offset == 112,
            tss.io_bitmap@ == Seq::new(8193, |i: int| 0u8),
    {
        let mut io_bitmap: Vec<u8> = Vec::new();
        let mut i: usize = 0;
        while i < 8193
            invariant
                i <= 8193,
                io_bitmap@ == Seq::new(i as nat, |j: int| 0u8),
            decreases 8193 - i,
        {
            io_bitmap.push(0);
            i = i + 1;
        }
        TaskStateSegment {
            reserved0: 0,
            privilege_stack_table: [kernel_rsp, kernel_rsp, kernel_rsp],
            reserved1: 0,
            interrupt_stack_table: [
                kernel_rsp,
                kernel_rsp,
                kernel_rsp,
                kernel_rsp,
                kernel_rsp,
                kernel_rsp,
                kernel_rsp,
            ],
            reserved2: 0,
            reserved3: 0,
            io_bitmap_offset: 112,
            io_bitmap,
        }
    }
}

/// Points the task state segment descriptor of `gdt` at `tss_addr` and marks
/// it present; returns the selector to load into the task register: entry 5
/// at level 0.
pub fn load_task_state_segment(gdt: &mut GlobalDescriptorTable, tss_addr: u64) -> (selector: u16)
    ensures
        final(gdt).segments() == old(gdt).segments(),
        final(gdt).spec_tss() == tss_at(old(gdt).spec_tss(), tss_addr),
        selector == (5u16 << 3u16) | privilege_bits(PrivilegeLevel::Supervisor),
{
    gdt.set_tss_base(tss_addr);
    SegmentSelector::new(5, PrivilegeLevel::Supervisor).0
}

/// The base fields of a descriptor, put together, give back the address
/// they were cut from.
pub proof fn lemma_tss_base_roundtrip(addr: u64)
    ensures
        (addr as u16) as u64 | (((addr >> 16u64) as u8) as u64) << 16u64 | (((addr >> 24u64) as u8) as u64)
            << 24u64 | (((addr >> 32u64) as u32) as u64) << 32u64 == addr,
{
    assert((addr as u16) as u64 | (((addr >> 16u64) as u8) as u64) << 16u64 | (((addr >> 24u64) as u8) as u64)
        << 24u64 | (((addr >> 32u64) as u32) as u64) << 32u64 == addr) by (bit_vector);
}

} // verus!
