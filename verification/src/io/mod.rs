use vstd::prelude::*;

verus! {

/// The data port of the master interrupt controller.
pub const PIC_DATA_MASTER: u16 = 0x21;
/// The data port of the slave interrupt controller.
pub const PIC_DATA_SLAVE: u16 = 0xA1;
/// The command port of the master interrupt controller.
pub const PIC_COMMAND_MASTER: u16 = 0x20;
/// The command port of the slave interrupt controller.
pub const PIC_COMMAND_SLAVE: u16 = 0xA0;

/// Initialization command word 1: start initialization.
pub const ICW1_INIT: u8 = 0x10;
/// Initialization command word 1 with word 4 expected.
pub const ICW_1: u8 = 0x11;
/// Initialization command word 2 of the master: its vector offset.
pub const ICW2_MASTER: u8 = 0x20;
/// Initialization command word 2 of the slave: its vector offset.
pub const ICW2_SLAVE: u8 = 0x28;
/// Initialization command word 3 of the master: a slave at line 2.
pub const ICW3_MASTER: u8 = 0x04;
/// Initialization command word 3 of the slave: its cascade identity.
pub const ICW3_SLAVE: u8 = 0x02;
/// Initialization command word 1: word 4 follows.
pub const ICW1_ICW4: u8 = 0x01;
/// Initialization command word 4: 8086 mode.
pub const ICW4_8086: u8 = 0x01;

/// The end-of-interrupt command of the interrupt controllers.
pub const PIC_EOI: u8 = 0x20;

/// The number of time stamp counter cycles per millisecond, for a processor
/// taken to run at 1 GHz.
pub const CYCLES_PER_MS: u64 = 1_000_000;

/// A hardware I/O port.
#[derive(Debug, Clone, Copy, PartialEq, Eq, Structural)]
pub struct Port {
    /// The number of the port.
    pub port: u16,
}

impl Port {
    /// The port numbered `port`.
    pub fn new(port: u16) -> (p: Port)
        ensures
            p.port == port,
    {
        Port { port }
    }
}

/// The time stamp counter value at which a sleep of `milliseconds`, begun
/// when the counter read `start`, ends.
pub fn sleep_for(start: u64, milliseconds: u64) -> (target: u64)
    requires
        start + milliseconds * CYCLES_PER_MS <= u64::MAX,
    ensures
        target == start + milliseconds * CYCLES_PER_MS,
{
    let cpu_frequency: u64 = 1_000_000_000;
    let cycles_per_ms = cpu_frequency / 1_000;
    start + milliseconds * cycles_per_ms
}


/// The write that makes the processor wait for an I/O operation to
/// complete: a zero byte to port 0x80.
pub fn io_wait() -> (w: (u16, u8))
    ensures
        w == (0x80u16, 0u8),
{
    (0x80, 0)
}

/// The write that signals the end of an interrupt to the master controller.
pub fn pic_end_master() -> (w: (u16, u8))
    ensures
        w == (PIC_COMMAND_MASTER, PIC_EOI),
{
    (PIC_COMMAND_MASTER, PIC_EOI)
}

/// The writes that signal the end of an interrupt to the slave controller,
/// then to the master.
pub fn pic_end_slave() -> (w: Vec<(u16, u8)>)
    ensures
        w@ == seq![(PIC_COMMAND_SLAVE, PIC_EOI), (PIC_COMMAND_MASTER, PIC_EOI)],
{
    let mut w: Vec<(u16, u8)> = Vec::new();
    w.push((PIC_COMMAND_SLAVE, PIC_EOI));
    w.push((PIC_COMMAND_MASTER, PIC_EOI));
    assert(w@ =~= seq![(PIC_COMMAND_SLAVE, PIC_EOI), (PIC_COMMAND_MASTER, PIC_EOI)]);
    w
}

} // verus!
