use vstd::prelude::*;

verus! {

/// The operand of the instructions that load a descriptor table: the size of
/// the table in bytes, minus one, and its address.
#[derive(Debug, Clone, Copy, PartialEq, Eq, Structural)]
pub struct DescriptorTablePointer {
    /// The size of the table in bytes, minus one.
    pub limit: u16,
    /// The address of the table.
    pub base: u64,
}

} // verus!
