pub mod idt;
pub mod isr;
pub mod timer;

use vstd::prelude::*;
use crate::apic::lapic::LVT_EOI;
use crate::apic::Apic;
use crate::io::{pic_end_master, PIC_COMMAND_MASTER, PIC_EOI};

verus! {

/// The write that signals the end of an interrupt: to a register of the
/// local APIC (its offset and the value), or to a port of the interrupt
/// controller (its number and the byte).
#[derive(Debug, Clone, Copy, PartialEq, Eq, Structural)]
pub enum EoiWrite {
    /// A write to a register of the local APIC.
    Lapic(u32, u32),
    /// A write to a port of the interrupt controller.
    Pic(u16, u8),
}

/// The write that ends the current interrupt: to the local APIC when the
/// APIC is enabled, else to the master interrupt controller.
pub fn end_of_interrupt(apic: &Apic) -> (w: EoiWrite)
    ensures
        apic.spec_is_enabled() ==> w == EoiWrite::Lapic(LVT_EOI, 0),
        !apic.spec_is_enabled() ==> w == EoiWrite::Pic(PIC_COMMAND_MASTER, PIC_EOI),
{
    if apic.is_enabled() {
        let (reg, value) = apic.lapic_eoi();
        EoiWrite::Lapic(reg, value)
    } else {
        let (port, byte) = pic_end_master();
        EoiWrite::Pic(port, byte)
    }
}

} // verus!
