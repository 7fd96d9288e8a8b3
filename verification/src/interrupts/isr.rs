use vstd::prelude::*;
use crate::interrupts::idt::{gate, IdtEntry, InterruptDescriptorTable, IDT_SIZE};
use crate::memory::PAGE_SIZE;
use crate::io::{ICW1_ICW4, ICW1_INIT, ICW4_8086, PIC_COMMAND_MASTER, PIC_COMMAND_SLAVE, PIC_DATA_MASTER, PIC_DATA_SLAVE};

verus! {

/// The selector of the kernel's code segment.
pub const KERNEL_CS: u16 = 0x08;

/// The number of entries of the interrupt descriptor table.
pub const IDT_ENTRIES: usize = 256;

/// The size of a stack of the interrupt stack table: 8 pages.
pub const IST_SIZE: usize = 8 * PAGE_SIZE;

/// The type and attributes of a present interrupt gate of level 0.
pub const INTERRUPT_GATE: u8 = 0x8E;

/// The type and attributes of a present interrupt gate of level 3, which user
/// programs may raise.
pub const USER_INTERRUPT_GATE: u8 = 0xEE;

/// The vector of system calls.
pub const SYSCALL_VECTOR: usize = 0x80;

/// What the processor pushes on the stack when it takes an interrupt.
#[derive(Debug, Clone, Copy)]
pub struct InterruptStackFrame {
    /// The values pushed.
    pub value: InterruptStackFrameValue,
}

/// The values the processor pushes on the stack when it takes an interrupt.
#[derive(Debug, Clone, Copy)]
pub struct InterruptStackFrameValue {
    /// Where the interrupted code was.
    pub instruction_pointer: u64,
    /// The code segment of the interrupted code.
    pub code_segment: u64,
    /// The flags register of the interrupted code.
    pub cpu_flags: u64,
    /// The stack pointer of the interrupted code.
    pub stack_pointer: u64,
    /// The stack segment of the interrupted code.
    pub stack_segment: u64,
}

impl Default for InterruptStackFrameValue {
    fn default() -> (v: Self)
        ensures
            v.instruction_pointer == 0 && v.code_segment == 0 && v.cpu_flags == 0
                && v.stack_pointer == 0 && v.stack_segment == 0,
    {
        InterruptStackFrameValue {
            instruction_pointer: 0,
            code_segment: 0,
            cpu_flags: 0,
            stack_pointer: 0,
            stack_segment: 0,
        }
    }
}

/// The addresses of the handlers the kernel installs.
#[derive(Debug, Clone, Copy)]
pub struct InterruptHandlers {
    /// The handler of page faults.
    pub page_fault: u64,
    /// The handler of double faults.
    pub double_fault: u64,
    /// The handler of general protection faults.
    pub general_protection_fault: u64,
    /// The handler of breakpoints.
    pub breakpoint: u64,
    /// The handler of every other interrupt from vector 32 up.
    pub default: u64,
    /// The handler of system calls.
    pub syscall: u64,
}

/// The table `t` once the kernel's handlers `h` are installed: gates of level
/// 0 for the page fault, double fault, general protection fault and
/// breakpoint, the default handler for every vector from 32 up, and a gate
/// of level 3 for system calls.
pub open spec fn installed(t: Seq<IdtEntry>, h: InterruptHandlers) -> Seq<IdtEntry> {
    Seq::new(
        t.len(),
        |i: int|
            if i == 14 {
                gate(t[i], h.page_fault, INTERRUPT_GATE, KERNEL_CS)
            } else if i == 8 {
                gate(t[i], h.double_fault, INTERRUPT_GATE, KERNEL_CS)
            } else if i == 13 {
                gate(t[i], h.general_protection_fault, INTERRUPT_GATE, KERNEL_CS)
            } else if i == 3 {
                gate(t[i], h.breakpoint, INTERRUPT_GATE, KERNEL_CS)
            } else if i == SYSCALL_VECTOR {
                gate(t[i], h.syscall, USER_INTERRUPT_GATE, KERNEL_CS)
            } else if 32 <= i {
                gate(t[i], h.default, INTERRUPT_GATE, KERNEL_CS)
            } else {
                t[i]
            },
    )
}

/// Installs the kernel's interrupt handlers in `idt` (see [`installed`]).
pub fn idt_init(idt: &mut InterruptDescriptorTable, handlers: &InterruptHandlers)
    requires
        old(idt).wf(),
    ensures
        final(idt).wf(),
        final(idt)@ == installed(old(idt)@, *handlers),
{
    let ghost t = idt@;
    proof {
        old(idt).lemma_wf_len();
    }
    idt.index_mut(14).set_gate(handlers.page_fault, INTERRUPT_GATE, KERNEL_CS);
    idt.index_mut(8).set_gate(handlers.double_fault, INTERRUPT_GATE, KERNEL_CS);
    idt.index_mut(13).set_gate(handlers.general_protection_fault, INTERRUPT_GATE, KERNEL_CS);
    idt.index_mut(3).set_gate(handlers.breakpoint, INTERRUPT_GATE, KERNEL_CS);
    proof {
        idt.lemma_wf_len();
    }
    let mut i: usize = 32;
    while i < IDT_ENTRIES
        invariant
            idt.wf(),
            t.len() == 256,
            32 <= i <= IDT_ENTRIES,
            idt@.len() == 256,
            forall|j: int|
                0 <= j < i ==> #[trigger] idt@[j] == if j == 14 {
                    gate(t[j], handlers.page_fault, INTERRUPT_GATE, KERNEL_CS)
                } else if j == 8 {
                    gate(t[j], handlers.double_fault, INTERRUPT_GATE, KERNEL_CS)
                } else if j == 13 {
                    gate(t[j], handlers.general_protection_fault, INTERRUPT_GATE, KERNEL_CS)
                } else if j == 3 {
                    gate(t[j], handlers.breakpoint, INTERRUPT_GATE, KERNEL_CS)
                } else if 32 <= j {
                    gate(t[j], handlers.default, INTERRUPT_GATE, KERNEL_CS)
                } else {
                    t[j]
                },
            forall|j: int| i <= j < 256 ==> #[trigger] idt@[j] == t[j],
        decreases IDT_ENTRIES - i,
    {
        idt.index_mut(i).set_gate(handlers.default, INTERRUPT_GATE, KERNEL_CS);
        proof {
            idt.lemma_wf_len();
        }
        i = i + 1;
    }
    idt.index_mut(SYSCALL_VECTOR).set_gate(handlers.syscall, USER_INTERRUPT_GATE, KERNEL_CS);
    assert(idt@ =~= installed(t, *handlers));
}


/// The port writes that remap the interrupt controllers so that their lines
/// do not overlap the processor's exceptions: each controller is started in
/// cascade mode, given its vector offset (0x20 and 0x28), told of the
/// cascade (a slave at line 2; the slave's identity 2) and put in 8086 mode,
/// then the masks `pic1` and `pic2` read before are restored. Each write
/// but the last is followed by a wait (a zero byte to port 0x80).
pub open spec fn remap_writes(pic1: u8, pic2: u8) -> Seq<(u16, u8)> {
    let wait = (0x80u16, 0u8);
    seq![
        (PIC_COMMAND_MASTER, ICW1_INIT | ICW1_ICW4), wait,
        (PIC_COMMAND_SLAVE, ICW1_INIT | ICW1_ICW4), wait,
        (PIC_DATA_MASTER, 0x20u8), wait,
        (PIC_DATA_SLAVE, 0x28u8), wait,
        (PIC_DATA_MASTER, 4u8), wait,
        (PIC_DATA_SLAVE, 2u8), wait,
        (PIC_DATA_MASTER, ICW4_8086), wait,
        (PIC_DATA_SLAVE, ICW4_8086), wait,
        (PIC_DATA_MASTER, pic1), wait,
        (PIC_DATA_SLAVE, pic2)
    ]
}

/// The writes that remap the interrupt controllers, whose masks read
/// `pic1` (master) and `pic2` (slave) before (see [`remap_writes`]).
pub fn remap_pic(pic1: u8, pic2: u8) -> (writes: Vec<(u16, u8)>)
    ensures
        writes@ == remap_writes(pic1, pic2),
{
    let wait = crate::io::io_wait();
    let mut w: Vec<(u16, u8)> = Vec::new();
    w.push((PIC_COMMAND_MASTER, ICW1_INIT | ICW1_ICW4));
    w.push(wait);
    w.push((PIC_COMMAND_SLAVE, ICW1_INIT | ICW1_ICW4));
    w.push(wait);
    w.push((PIC_DATA_MASTER, 0x20));
    w.push(wait);
    w.push((PIC_DATA_SLAVE, 0x28));
    w.push(wait);
    w.push((PIC_DATA_MASTER, 4));
    w.push(wait);
    w.push((PIC_DATA_SLAVE, 2));
    w.push(wait);
    w.push((PIC_DATA_MASTER, ICW4_8086));
    w.push(wait);
    w.push((PIC_DATA_SLAVE, ICW4_8086));
    w.push(wait);
    w.push((PIC_DATA_MASTER, pic1));
    w.push(wait);
    w.push((PIC_DATA_SLAVE, pic2));
    assert(w@ =~= remap_writes(pic1, pic2));
    w
}

} // verus!
