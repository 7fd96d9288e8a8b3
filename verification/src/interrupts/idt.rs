use vstd::prelude::*;
use crate::structures::DescriptorTablePointer;

verus! {

/// An entry of the interrupt descriptor table: the address of a handler,
/// split in three parts, the code segment selector, the interrupt stack table
/// index, and the type and attributes.
#[derive(Debug, Clone, Copy, PartialEq, Eq, Structural)]
pub struct IdtEntry {
    /// Bits 0..16 of the handler's address.
    pub offset0: u16,
    /// The code segment selector.
    pub selector: u16,
    /// The interrupt stack table index (bits 0..3), the rest zero.
    pub ist: u8,
    /// Type and attribute bits of the entry.
    pub types_attr: u8,
    /// Bits 16..32 of the handler's address.
    pub offset1: u16,
    /// Bits 32..64 of the handler's address.
    pub offset2: u32,
    /// Reserved: zero.
    pub ignore: u32,
}

/// The handler address an entry holds, put together from its three parts.
pub open spec fn entry_offset(e: IdtEntry) -> u64 {
    (e.offset0 as u64) | ((e.offset1 as u64) << 16u64) | ((e.offset2 as u64) << 32u64)
}

/// The entry with every field zero.
pub open spec fn empty_entry() -> IdtEntry {
    IdtEntry { offset0: 0, selector: 0, ist: 0, types_attr: 0, offset1: 0, offset2: 0, ignore: 0 }
}

/// The entry `e` holding the handler address `offset`, cut in its three parts.
pub open spec fn with_offset(e: IdtEntry, offset: u64) -> IdtEntry {
    IdtEntry {
        offset0: (offset & 0xFFFF) as u16,
        offset1: ((offset & 0xFFFF_0000) >> 16u64) as u16,
        offset2: ((offset & 0xFFFF_FFFF_0000_0000) >> 32u64) as u32,
        ..e
    }
}

/// The entry `e` made a gate to `handler` with `types_attr` and `selector`.
pub open spec fn gate(e: IdtEntry, handler: u64, types_attr: u8, selector: u16) -> IdtEntry {
    IdtEntry { selector, types_attr, ..with_offset(e, handler) }
}

impl IdtEntry {
    /// The entry with every field zero.
    pub fn default() -> (e: IdtEntry)
        ensures
            e == empty_entry(),
    {
        IdtEntry { offset0: 0, selector: 0, ist: 0, types_attr: 0, offset1: 0, offset2: 0, ignore: 0 }
    }

    /// Stores the handler address `offset` in its three parts.
    pub fn set_offset(&mut self, offset: u64)
        ensures
            *final(self) == with_offset(*old(self), offset),
            entry_offset(*final(self)) == offset,
    {
        self.offset0 = (offset & 0x000000000000FFFF) as u16;
        self.offset1 = ((offset & 0x00000000FFFF0000) >> 16) as u16;
        self.offset2 = ((offset & 0xFFFFFFFF00000000) >> 32) as u32;
        proof {
            lemma_offset_roundtrip(offset);
        }
    }

    /// Makes the entry a gate to `handler` with `types_attr` and `selector`.
    pub fn set_gate(&mut self, handler: u64, types_attr: u8, selector: u16)
        ensures
            *final(self) == gate(*old(self), handler, types_attr, selector),
            entry_offset(*final(self)) == handler,
    {
        self.set_offset(handler);
        self.selector = selector;
        self.types_attr = types_attr;
    }
}

/// The three parts of a handler address, put together, give back the address.
pub proof fn lemma_offset_roundtrip(offset: u64)
    ensures
        (((offset & 0xFFFF) as u16) as u64) | ((((offset & 0xFFFF_0000) >> 16u64) as u16) as u64)
            << 16u64 | ((((offset & 0xFFFF_FFFF_0000_0000) >> 32u64) as u32) as u64) << 32u64
            == offset,
{
    assert((((offset & 0xFFFF) as u16) as u64) | ((((offset & 0xFFFF_0000) >> 16u64) as u16) as u64)
        << 16u64 | ((((offset & 0xFFFF_FFFF_0000_0000) >> 32u64) as u32) as u64) << 32u64 == offset)
        by (bit_vector);
}

/// The number of entries of the interrupt descriptor table.
pub const IDT_SIZE: usize = 256;

/// The size in bytes of the interrupt descriptor table: 256 entries of 16 bytes.
pub const IDT_BYTES: u16 = 4096;

/// The interrupt descriptor table: the 20 exceptions of the processor by
/// name, 12 reserved entries, and the 224 entries of the other interrupts.
#[derive(Debug)]
pub struct InterruptDescriptorTable {
    /// Divide error: a division by zero or a quotient too large.
    pub div_by_zero: IdtEntry,
    /// Debug exception.
    pub debug: IdtEntry,
    /// Non-maskable interrupt.
    pub non_maskable_interrupt: IdtEntry,
    /// Breakpoint: the `int3` instruction.
    pub breakpoint: IdtEntry,
    /// Overflow: the `into` instruction.
    pub overflow: IdtEntry,
    /// Bound range exceeded.
    pub bound_range_exceeded: IdtEntry,
    /// Invalid opcode.
    pub invalid_opcode: IdtEntry,
    /// Device not available: no floating-point unit.
    pub device_not_available: IdtEntry,
    /// Double fault: an exception while raising another.
    pub double_fault: IdtEntry,
    /// Coprocessor segment overrun (no longer raised).
    pub coprocessor_segment_overrun: IdtEntry,
    /// Invalid task state segment.
    pub invalid_tss: IdtEntry,
    /// Segment not present.
    pub segment_not_present: IdtEntry,
    /// Stack-segment fault.
    pub stack_segment_fault: IdtEntry,
    /// General protection fault.
    pub general_protection_fault: IdtEntry,
    /// Page fault.
    pub page_fault: IdtEntry,
    /// Unassigned.
    pub unassigned: IdtEntry,
    /// x87 floating-point exception.
    pub x87_floating_point_exception: IdtEntry,
    /// Alignment check.
    pub alignment_check: IdtEntry,
    /// Machine check.
    pub machine_check: IdtEntry,
    /// SIMD floating-point exception.
    pub simd_floating_point_exception: IdtEntry,
    reserved: Vec<IdtEntry>,
    entries: Vec<IdtEntry>,
}

impl View for InterruptDescriptorTable {
    type V = Seq<IdtEntry>;

    /// The 256 entries, by vector number.
    closed spec fn view(&self) -> Seq<IdtEntry> {
        seq![self.div_by_zero, self.debug, self.non_maskable_interrupt, self.breakpoint, self.overflow, self.bound_range_exceeded, self.invalid_opcode, self.device_not_available, self.double_fault, self.coprocessor_segment_overrun, self.invalid_tss, self.segment_not_present, self.stack_segment_fault, self.general_protection_fault, self.page_fault, self.unassigned, self.x87_floating_point_exception, self.alignment_check, self.machine_check, self.simd_floating_point_exception] + self.reserved@
            + self.entries@
    }
}

impl InterruptDescriptorTable {
    /// The table holds 12 reserved entries and 224 others.
    pub closed spec fn wf(&self) -> bool {
        &&& self.reserved@.len() == 12
        &&& self.entries@.len() == 224
    }

    /// A well formed table has 256 entries.
    pub proof fn lemma_wf_len(&self)
        requires
            self.wf(),
        ensures
            self@.len() == IDT_SIZE,
    {
    }

    /// A table whose every entry is zero.
    pub fn new() -> (idt: Self)
        ensures
            idt.wf(),
            idt@ == Seq::new(256, |i: int| empty_entry()),
    {
        let mut reserved: Vec<IdtEntry> = Vec::new();
        let mut i: usize = 0;
        while i < 12
            invariant
                i <= 12,
                reserved@ == Seq::new(i as nat, |j: int| empty_entry()),
            decreases 12 - i,
        {
            reserved.push(IdtEntry::default());
            i = i + 1;
        }
        let mut entries: Vec<IdtEntry> = Vec::new();
        let mut i: usize = 0;
        while i < 224
            invariant
                i <= 224,
                entries@ == Seq::new(i as nat, |j: int| empty_entry()),
            decreases 224 - i,
        {
            entries.push(IdtEntry::default());
            i = i + 1;
        }
        let idt = InterruptDescriptorTable {
            div_by_zero: IdtEntry::default(),
            debug: IdtEntry::default(),
            non_maskable_interrupt: IdtEntry::default(),
            breakpoint: IdtEntry::default(),
            overflow: IdtEntry::default(),
            bound_range_exceeded: IdtEntry::default(),
            invalid_opcode: IdtEntry::default(),
            device_not_available: IdtEntry::default(),
            double_fault: IdtEntry::default(),
            coprocessor_segment_overrun: IdtEntry::default(),
            invalid_tss: IdtEntry::default(),
            segment_not_present: IdtEntry::default(),
            stack_segment_fault: IdtEntry::default(),
            general_protection_fault: IdtEntry::default(),
            page_fault: IdtEntry::default(),
            unassigned: IdtEntry::default(),
            x87_floating_point_exception: IdtEntry::default(),
            alignment_check: IdtEntry::default(),
            machine_check: IdtEntry::default(),
            simd_floating_point_exception: IdtEntry::default(),
            reserved,
            entries,
        };
        assert(idt@ =~= Seq::new(256, |i: int| empty_entry()));
        idt
    }

    /// The operand that loads this table when it lies at address `base`: its
    /// size minus one, and `base`.
    pub fn get_pointer(&self, base: u64) -> (p: DescriptorTablePointer)
        ensures
            p.limit == IDT_BYTES - 1,
            p.base == base,
    {
        DescriptorTablePointer { limit: IDT_BYTES - 1, base }
    }

    /// The mask of the interrupt controller with interrupt line `int_no`
    /// masked too, from its mask `current_mask`.
    pub fn disable_pic_interrupt(&self, current_mask: u8, int_no: usize) -> (mask: u8)
        requires
            int_no < 8,
        ensures
            mask == current_mask | (1u8 << int_no as u8),
    {
        let mask: u8 = 1 << int_no as u8;
        current_mask | mask
    }

    /// The entry of vector `index`.
    pub fn index(&self, index: usize) -> (e: &IdtEntry)
        requires
            self.wf(),
            index < IDT_SIZE,
        ensures
            *e == self@[index as int],
    {
        match index {
            0 => &self.div_by_zero,
            1 => &self.debug,
            2 => &self.non_maskable_interrupt,
            3 => &self.breakpoint,
            4 => &self.overflow,
            5 => &self.bound_range_exceeded,
            6 => &self.invalid_opcode,
            7 => &self.device_not_available,
            8 => &self.double_fault,
            9 => &self.coprocessor_segment_overrun,
            10 => &self.invalid_tss,
            11 => &self.segment_not_present,
            12 => &self.stack_segment_fault,
            13 => &self.general_protection_fault,
            14 => &self.page_fault,
            15 => &self.unassigned,
            16 => &self.x87_floating_point_exception,
            17 => &self.alignment_check,
            18 => &self.machine_check,
            19 => &self.simd_floating_point_exception,
            20..=31 => &self.reserved[index - 20],
            _ => &self.entries[index - 32],
        }
    }

    /// The entry of vector `index`, to change.
    pub fn index_mut(&mut self, index: usize) -> (e: &mut IdtEntry)
        requires
            old(self).wf(),
            index < IDT_SIZE,
        ensures
            *e == old(self)@[index as int],
            final(self).wf(),
            final(self)@ == old(self)@.update(index as int, *final(e)),
    {
        match index {
            0 => &mut self.div_by_zero,
            1 => &mut self.debug,
            2 => &mut self.non_maskable_interrupt,
            3 => &mut self.breakpoint,
            4 => &mut self.overflow,
            5 => &mut self.bound_range_exceeded,
            6 => &mut self.invalid_opcode,
            7 => &mut self.device_not_available,
            8 => &mut self.double_fault,
            9 => &mut self.coprocessor_segment_overrun,
            10 => &mut self.invalid_tss,
            11 => &mut self.segment_not_present,
            12 => &mut self.stack_segment_fault,
            13 => &mut self.general_protection_fault,
            14 => &mut self.page_fault,
            15 => &mut self.unassigned,
            16 => &mut self.x87_floating_point_exception,
            17 => &mut self.alignment_check,
            18 => &mut self.machine_check,
            19 => &mut self.simd_floating_point_exception,
            20..=31 => &mut self.reserved[index - 20],
            _ => &mut self.entries[index - 32],
        }
    }
}

} // verus!
