use vstd::prelude::*;

verus! {

/// The identifier register of the local APIC.
pub const LAPIC_ID: u32 = 0x20;
/// The version register.
pub const LAPIC_VERSION: u32 = 0x30;
/// The task priority register.
pub const LAPIC_TASK_PRIORITY: u32 = 0x80;
/// The arbitration priority register.
pub const LAPIC_ARBITRATION_PRIORITY: u32 = 0x90;
/// The processor priority register.
pub const LAPIC_PROCESSOR_PRIORITY: u32 = 0xa0;
/// The end-of-interrupt register.
pub const LAPIC_EOI: u32 = 0xb0;
/// The remote read register.
pub const LAPIC_REMOTE_READ: u32 = 0xc0;
/// The logical destination register.
pub const LAPIC_LOGICAL_DESTINATION: u32 = 0xd0;
/// The destination format register.
pub const LAPIC_DESTINATION_FORMAT: u32 = 0xe0;
/// The spurious interrupt vector register.
pub const LAPIC_SPURIOUS_INTERRUPT_VECTOR: u32 = 0xf0;
/// The first in-service register.
pub const LAPIC_IN_SERVICE_0: u32 = 0x100;
/// The first trigger mode register.
pub const LAPIC_TRIGGER_MODE_0: u32 = 0x180;
/// The first interrupt request register.
pub const LAPIC_INTERRUPT_REQUEST_0: u32 = 0x200;
/// The error status register.
pub const LAPIC_ERROR_STATUS: u32 = 0x280;
/// The low half of the interrupt command register.
pub const LAPIC_INTERRUPT_COMMAND_LOW: u32 = 0x300;
/// The high half of the interrupt command register.
pub const LAPIC_INTERRUPT_COMMAND_HIGH: u32 = 0x310;
/// The timer entry of the local vector table.
pub const LAPIC_LVT_TIMER: u32 = 0x320;
/// The thermal sensor entry of the local vector table.
pub const LAPIC_LVT_THERMAL_SENSOR: u32 = 0x330;
/// The performance counters entry of the local vector table.
pub const LAPIC_LVT_PERFORMANCE_MONITORING_COUNTERS: u32 = 0x340;
/// The LINT0 entry of the local vector table.
pub const LAPIC_LVT_LINT0: u32 = 0x350;
/// The LINT1 entry of the local vector table.
pub const LAPIC_LVT_LINT1: u32 = 0x360;
/// The error entry of the local vector table.
pub const LAPIC_LVT_ERROR: u32 = 0x370;
/// The initial count register of the timer.
pub const LAPIC_INITIAL_COUNT: u32 = 0x380;
/// The current count register of the timer.
pub const LAPIC_CURRENT_COUNT: u32 = 0x390;
/// The divide configuration register of the timer.
pub const LAPIC_DIVIDE_CONFIGURATION: u32 = 0x3e0;

} // verus!
