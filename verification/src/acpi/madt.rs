use vstd::prelude::*;
use crate::acpi::sdt::SdtHeader;

verus! {

/// The Multiple APIC Description Table: the interrupt controllers of the
/// machine, as entries of varying length after its fixed part.
#[derive(Debug)]
pub struct Madt {
    /// The common header.
    pub header: SdtHeader,
    /// The address of the local APIC.
    pub local_apic_address: u32,
    /// Flags.
    pub flags: u32,
    /// The bytes of the entries.
    pub entries: Vec<u8>,
}

/// The size of the fixed part of the table: the header, the address of the
/// local APIC and the flags.
pub const MADT_SIZE: usize = 44;

/// The kind of an entry of the table.
#[derive(Debug, Clone, Copy, PartialEq, Eq, Structural, PartialOrd, Ord)]
pub enum ApicType {
    /// A processor's local APIC (type 0).
    ProcessorLocalApic,
    /// An I/O APIC (type 1).
    IOApic,
    /// An interrupt source override (type 2).
    InterruptSourceOverride,
    /// Non-maskable interrupts (type 3).
    NonMaskableInterrupts,
    /// An override of the local APIC's address (type 4).
    LocalApicAddressOverride,
}

/// The number of a kind of entry.
pub open spec fn apic_type_code(t: ApicType) -> u8 {
    match t {
        ApicType::ProcessorLocalApic => 0,
        ApicType::IOApic => 1,
        ApicType::InterruptSourceOverride => 2,
        ApicType::NonMaskableInterrupts => 3,
        ApicType::LocalApicAddressOverride => 4,
    }
}

/// The start of an entry of the table: its kind and its length.
#[derive(Debug, Clone, Copy)]
pub struct MadtEntry {
    /// The kind of the entry.
    pub apic_type: ApicType,
    /// The length of the entry, these two bytes included.
    pub length: u8,
}

/// The header of every entry: its kind and its length.
#[derive(Debug, Clone, Copy, PartialEq, Eq, Structural, PartialOrd, Ord)]
pub struct ApicHeader {
    /// The kind of the entry.
    pub apic_type: ApicType,
    /// The length of the entry.
    pub length: u8,
}

} // verus!
