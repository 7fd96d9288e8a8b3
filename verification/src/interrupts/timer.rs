use vstd::prelude::*;
use crate::interrupts::idt::{gate, InterruptDescriptorTable};
use crate::interrupts::isr::{INTERRUPT_GATE, KERNEL_CS};

verus! {

/// The input frequency of the programmable interval timer, in hertz.
pub const CLOCK_TICK_RATE: u32 = 1193182;

/// The frequency of timer interrupts, in hertz.
pub const TIMER_TICK_RATE: u32 = 100;

/// The system timer.
pub struct Timer {
    /// The number of ticks since the timer was started.
    pub tick: u32,
}

/// The divisor of the interval timer for [`TIMER_TICK_RATE`]: the input
/// frequency divided by the tick rate, rounded to the nearest.
pub open spec fn timer_latch() -> u16 {
    ((CLOCK_TICK_RATE as int + TIMER_TICK_RATE as int / 2) / TIMER_TICK_RATE as int) as u16
}

/// Installs the timer's interrupt handler `handler` at vector 32 of `idt`,
/// and returns the two bytes then written to the timer's counter: the low
/// byte of the divisor, then whether the divisor exceeds 8.
pub fn init_timer(idt: &mut InterruptDescriptorTable, handler: u64) -> (latch_bytes: (u8, u8))
    requires
        old(idt).wf(),
    ensures
        final(idt).wf(),
        final(idt)@ == old(idt)@.update(32, gate(old(idt)@[32], handler, INTERRUPT_GATE, KERNEL_CS)),
        latch_bytes == ((timer_latch() % 256) as u8, if timer_latch() > 8 { 1u8 } else { 0u8 }),
{
    idt.index_mut(32).set_gate(handler, INTERRUPT_GATE, KERNEL_CS);
    let latch = ((CLOCK_TICK_RATE + TIMER_TICK_RATE / 2) / TIMER_TICK_RATE) as u16;
    proof {
        assert(latch & 0xFF == latch % 256) by (bit_vector);
    }
    ((latch & 0xFF) as u8, if latch > 8 { 1 } else { 0 })
}

} // verus!
