use vstd::prelude::*;
use crate::apic::ioapic::IoApic;
use crate::apic::lapic::Lapic;

pub mod ioapic;
pub mod lapic;
pub mod regs;

verus! {

/// The APIC system: the local APIC and the I/O APIC.
#[derive(Debug, Clone, Copy)]
pub struct Apic {
    lapic: Lapic,
    ioapic: IoApic,
    is_enabled: bool,
}

impl Apic {
    /// The local APIC.
    pub closed spec fn spec_lapic(&self) -> Lapic {
        self.lapic
    }

    /// The I/O APIC.
    pub closed spec fn spec_ioapic(&self) -> IoApic {
        self.ioapic
    }

    /// The local APIC.
    pub fn lapic(&self) -> (l: Lapic)
        ensures
            l == self.spec_lapic(),
    {
        self.lapic
    }

    /// Whether the APIC system is enabled.
    pub closed spec fn spec_is_enabled(&self) -> bool {
        self.is_enabled
    }

    /// The APIC system before it is enabled: a local APIC at address 0 and a
    /// blank I/O APIC.
    pub fn new() -> (a: Apic)
        ensures
            !a.spec_is_enabled(),
            a.spec_lapic().local_apic_address == 0,
            a.spec_ioapic().spec_address() == 0,
    {
        Apic { lapic: Lapic::new(0), ioapic: IoApic::default(), is_enabled: false }
    }

    /// Whether the APIC system is enabled.
    pub fn is_enabled(&self) -> (b: bool)
        ensures
            b == self.spec_is_enabled(),
    {
        self.is_enabled
    }

    /// The write that signals the end of an interrupt to the local APIC.
    pub fn lapic_eoi(&self) -> (w: (u32, u32))
        ensures
            w == (crate::apic::lapic::LVT_EOI, 0u32),
    {
        self.lapic.eoi()
    }

    /// The write that routes interrupt request `irq` through the I/O APIC.
    pub fn enable_irq(&self, irq: u8) -> (w: (u32, u32))
        ensures
            w == ((crate::apic::ioapic::IO_APIC_REDIRECTION_TABLE + 2 * irq) as u32, (
            crate::apic::ioapic::BASE_IRQ + irq) as u32),
    {
        self.ioapic.enable_irq(irq)
    }
}

/// The APIC system made of `lapic` and `ioapic`, once they are set up:
/// enabled.
pub fn enable_apic_mode(lapic: Lapic, ioapic: IoApic) -> (a: Apic)
    ensures
        a.spec_is_enabled(),
        a.spec_lapic() == lapic,
        a.spec_ioapic() == ioapic,
{
    Apic { lapic, ioapic, is_enabled: true }
}

} // verus!
