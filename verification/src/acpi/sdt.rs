use vstd::prelude::*;

verus! {

/// The header common to the system description tables of ACPI.
#[derive(Debug, Clone, Copy)]
pub struct SdtHeader {
    /// The 4-character signature of the table, such as "FACP" or "APIC".
    pub signature: [u8; 4],
    /// The length of the whole table, header included.
    pub length: u32,
    /// The revision of the table.
    pub revision: u8,
    /// Makes the bytes of the whole table sum to zero.
    pub checksum: u8,
    /// The manufacturer.
    pub oem_id: [u8; 6],
    /// The manufacturer's name of the table.
    pub oem_table_id: [u8; 8],
    /// The manufacturer's revision of the table.
    pub oem_revision: u32,
    /// The maker of the table.
    pub creator_id: u32,
    /// The maker's revision.
    pub creator_revision: u32,
}

/// The size of the header in bytes.
pub const SDT_HEADER_SIZE: u32 = 36;

} // verus!
