use vstd::prelude::*;

verus! {

/// A segment descriptor of the boot-time descriptor table.
#[derive(Debug, Clone, Copy, PartialEq, Eq, Structural)]
pub struct GdtEntry {
    /// Bits 0..16 of the limit.
    pub limit_low: u16,
    /// Bits 0..16 of the base.
    pub base_low: u16,
    /// Bits 16..24 of the base.
    pub base_middle: u8,
    /// The access byte.
    pub access: u8,
    /// Bits 16..20 of the limit in the low nibble, the flags in the high one.
    pub limit_high_flags: u8,
    /// Bits 24..32 of the base.
    pub base_high: u8,
}

impl GdtEntry {
    /// The descriptor of a segment at `base` with limit `limit`, access byte
    /// `access`, 4 KiB granularity and 32-bit operation.
    pub fn new(base: u32, limit: u32, access: u8) -> (e: GdtEntry)
        ensures
            e.limit_low == (limit & 0xFFFF) as u16,
            e.base_low == (base & 0xFFFF) as u16,
            e.base_middle == ((base >> 16u32) & 0xFF) as u8,
            e.access == access,
            e.limit_high_flags == (((limit >> 16u32) & 0xF) as u8) | 0xC0u8,
            e.base_high == ((base >> 24u32) & 0xFF) as u8,
    {
        GdtEntry {
            limit_low: (limit & 0xFFFF) as u16,
            base_low: (base & 0xFFFF) as u16,
            base_middle: ((base >> 16) & 0xFF) as u8,
            access,
            limit_high_flags: (((limit >> 16) & 0xF) as u8) | 0xC0,
            base_high: ((base >> 24) & 0xFF) as u8,
        }
    }
}

/// The operand of `lgdt`: the size of the table minus one, and its address.
#[derive(Debug, Clone, Copy)]
pub struct GdtPtr {
    /// The size of the table in bytes, minus one.
    pub limit: u16,
    /// The address of the table.
    pub base: u64,
}

/// An entry of the interrupt descriptor table.
#[derive(Debug, Clone, Copy, PartialEq, Eq, Structural)]
pub struct IdtEntry {
    /// Bits 0..16 of the handler's address.
    pub base_low: u16,
    /// The code segment selector.
    pub selector: u16,
    /// Zero.
    pub zero: u8,
    /// Type and attribute bits of the entry.
    pub flags: u8,
    /// Bits 16..32 of the handler's address.
    pub base_mid: u16,
    /// Bits 32..64 of the handler's address.
    pub base_high: u32,
    /// Reserved: zero.
    pub reserved: u32,
}

/// The operand of `lidt`: the size of the table minus one, and its address.
#[derive(Debug, Clone, Copy)]
pub struct IdtPtr {
    /// The size of the table in bytes, minus one.
    pub limit: u16,
    /// The address of the table.
    pub base: u64,
}

/// The selector of the kernel's code segment.
pub const KERNEL_CS: u16 = 0x08;

/// The type and attributes of a present interrupt gate of level 0.
pub const INT_ATTR: u8 = 0x8E;

/// The entry with every field zero.
pub open spec fn zero_entry() -> IdtEntry {
    IdtEntry { base_low: 0, selector: 0, zero: 0, flags: 0, base_mid: 0, base_high: 0, reserved: 0 }
}

/// An interrupt entry of level 0, in the kernel's code segment, for the handler at
/// `handler`.
pub open spec fn kernel_gate(handler: u64) -> IdtEntry {
    IdtEntry {
        base_low: (handler & 0xFFFF) as u16,
        selector: KERNEL_CS,
        zero: 0,
        flags: INT_ATTR,
        base_mid: ((handler >> 16u64) & 0xFFFF) as u16,
        base_high: ((handler >> 32u64) & 0xFFFFFFFF) as u32,
        reserved: 0,
    }
}

impl IdtEntry {
    /// The entry with every field zero.
    pub fn new() -> (e: Self)
        ensures
            e == zero_entry(),
    {
        IdtEntry { base_low: 0, selector: 0, zero: 0, flags: 0, base_mid: 0, base_high: 0, reserved: 0 }
    }
}

/// Makes entry `index` of `entries` the kernel's gate to `handler_address`.
pub fn set_idt_gate(entries: &mut Vec<IdtEntry>, index: usize, handler_address: u64)
    requires
        index < old(entries)@.len(),
    ensures
        final(entries)@ == old(entries)@.update(index as int, kernel_gate(handler_address)),
{
    let entry = IdtEntry {
        base_low: (handler_address & 0xFFFF) as u16,
        selector: KERNEL_CS,
        zero: 0,
        flags: INT_ATTR,
        base_mid: ((handler_address >> 16) & 0xFFFF) as u16,
        base_high: ((handler_address >> 32) & 0xFFFFFFFF) as u32,
        reserved: 0,
    };
    entries.set(index, entry);
}

} // verus!
