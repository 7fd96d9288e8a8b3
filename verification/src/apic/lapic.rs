use vstd::prelude::*;

verus! {

/// The timer entry of the local vector table.
pub const LVT_TIMER: u32 = 0x320;
/// The thermal sensor entry.
pub const LVT_THERMAL: u32 = 0x330;
/// The performance monitoring entry.
pub const LVT_PERFMON: u32 = 0x340;
/// The LINT0 entry.
pub const LVT_LINT0: u32 = 0x350;
/// The LINT1 entry.
pub const LVT_LINT1: u32 = 0x360;
/// The error entry.
pub const LVT_ERROR: u32 = 0x370;
/// The end-of-interrupt register.
pub const LVT_EOI: u32 = 0xB0;
/// The spurious interrupt vector register.
pub const LVT_SPV: u32 = 0xF0;
/// The task priority register.
pub const LVT_TPR: u32 = 0x80;
/// The divide configuration register of the timer.
pub const TIMER_DIVIDE_CONFIG_REG: u32 = 0x3E0;
/// The initial count register of the timer.
pub const TIMER_INITIAL_COUNT_REG: u32 = 0x380;
/// The mask bit of an entry of the local vector table.
pub const APIC_LVT_MASKED: u32 = 0x10000;
/// The periodic mode bit of the timer entry.
pub const APIC_TIMER_PERIODIC_MODE: u32 = 0x20000;
/// The bit of the spurious interrupt vector register that enables the APIC.
pub const APIC_SPURIOUS_INTERRUPT_VECTOR_ENABLE: u32 = 0x100;
/// The select port of the interrupt mode configuration register.
pub const PIC_IMCR_SELECT: u16 = 0x22;
/// The data port of the interrupt mode configuration register.
pub const PIC_IMCR_DATA: u16 = 0x23;
/// The number of the interrupt mode configuration register.
pub const IMCR_SELECT_REGISTER: u8 = 0x70;
/// The value that disconnects the PIC.
pub const IMCR_DISABLE_PIC: u8 = 0x01;
/// The vector of the timer.
pub const LAPIC_TIMER_VECTOR: u32 = 32;
/// The initial count of the timer.
pub const LAPIC_TIMER_INITIAL_COUNT: u32 = 400_000;
/// The divide configuration of the timer: divide by 1.
pub const LAPIC_TIMER_DIVIDE_CONFIG: u32 = 0x1;

/// The local APIC, by the address of its registers. The registers are read
/// and written in memory; these methods say which writes to make, as pairs
/// of register offset and value, in order.
#[derive(Debug, Clone, Copy)]
pub struct Lapic {
    /// The address of the registers.
    pub local_apic_address: u32,
}

/// The writes that mask every interrupt of the local vector table.
pub open spec fn vector_table_writes() -> Seq<(u32, u32)> {
    seq![
        (LVT_TIMER, APIC_LVT_MASKED),
        (LVT_THERMAL, APIC_LVT_MASKED),
        (LVT_PERFMON, APIC_LVT_MASKED),
        (LVT_LINT0, APIC_LVT_MASKED),
        (LVT_LINT1, APIC_LVT_MASKED),
        (LVT_ERROR, APIC_LVT_MASKED),
    ]
}

/// The writes that set the timer up: the divider, the initial count, then
/// the vector in periodic mode.
pub open spec fn timer_writes(vector: u32, initial_count: u32, divide_config: u32) -> Seq<(u32, u32)> {
    seq![
        (TIMER_DIVIDE_CONFIG_REG, divide_config),
        (TIMER_INITIAL_COUNT_REG, initial_count),
        (LVT_TIMER, vector | APIC_TIMER_PERIODIC_MODE),
    ]
}

impl Lapic {
    /// The local APIC whose registers are at `local_apic_address`.
    pub fn new(local_apic_address: u32) -> (l: Lapic)
        ensures
            l.local_apic_address == local_apic_address,
    {
        Lapic { local_apic_address }
    }

    /// The write that signals the end of an interrupt.
    pub fn eoi(&self) -> (w: (u32, u32))
        ensures
            w == (LVT_EOI, 0u32),
    {
        (LVT_EOI, 0)
    }

    /// The writes that set the local APIC up, the spurious interrupt vector
    /// register reading `spurious`: the vector table masked, the timer, the
    /// spurious vector enabled, an end of interrupt, and task priority 0.
    pub fn init(&self, spurious: u32) -> (writes: Vec<(u32, u32)>)
        ensures
            writes@ == vector_table_writes() + timer_writes(
                LAPIC_TIMER_VECTOR,
                LAPIC_TIMER_INITIAL_COUNT,
                LAPIC_TIMER_DIVIDE_CONFIG,
            ) + seq![(LVT_SPV, spurious | APIC_SPURIOUS_INTERRUPT_VECTOR_ENABLE), (LVT_EOI, 0u32), (LVT_TPR, 0u32)],
    {
        let mut writes = self.init_vector_table();
        let mut timer = self.setup_timer(
            LAPIC_TIMER_VECTOR,
            LAPIC_TIMER_INITIAL_COUNT,
            LAPIC_TIMER_DIVIDE_CONFIG,
        );
        writes.append(&mut timer);
        writes.push(self.write_spurious_interrupt_vector(spurious));
        writes.push(self.eoi());
        writes.push((LVT_TPR, 0));
        writes
    }

    /// The writes that mask every interrupt of the local vector table.
    pub fn init_vector_table(&self) -> (writes: Vec<(u32, u32)>)
        ensures
            writes@ == vector_table_writes(),
    {
        let mut writes: Vec<(u32, u32)> = Vec::new();
        writes.push((LVT_TIMER, APIC_LVT_MASKED));
        writes.push((LVT_THERMAL, APIC_LVT_MASKED));
        writes.push((LVT_PERFMON, APIC_LVT_MASKED));
        writes.push((LVT_LINT0, APIC_LVT_MASKED));
        writes.push((LVT_LINT1, APIC_LVT_MASKED));
        writes.push((LVT_ERROR, APIC_LVT_MASKED));
        assert(writes@ =~= vector_table_writes());
        writes
    }

    /// The writes that set the timer up with `vector`, `initial_count` and
    /// `divide_config`, in periodic mode.
    pub fn setup_timer(&self, vector: u32, initial_count: u32, divide_config: u32) -> (writes: Vec<(u32, u32)>)
        ensures
            writes@ == timer_writes(vector, initial_count, divide_config),
    {
        let mut writes: Vec<(u32, u32)> = Vec::new();
        writes.push((TIMER_DIVIDE_CONFIG_REG, divide_config));
        writes.push((TIMER_INITIAL_COUNT_REG, initial_count));
        let timer_lvt_value = vector | APIC_TIMER_PERIODIC_MODE;
        writes.push((LVT_TIMER, timer_lvt_value));
        assert(writes@ =~= timer_writes(vector, initial_count, divide_config));
        writes
    }

    /// The write that enables the spurious interrupt vector, the register
    /// reading `current`.
    pub fn write_spurious_interrupt_vector(&self, current: u32) -> (w: (u32, u32))
        ensures
            w == (LVT_SPV, current | APIC_SPURIOUS_INTERRUPT_VECTOR_ENABLE),
    {
        (LVT_SPV, current | APIC_SPURIOUS_INTERRUPT_VECTOR_ENABLE)
    }

    /// The address of register `reg`.
    pub fn register_address(&self, reg: u32) -> (addr: u64)
        ensures
            addr == self.local_apic_address + (reg / 4) * 4,
    {
        self.local_apic_address as u64 + ((reg / 4) as u64) * 4
    }
}

} // verus!
