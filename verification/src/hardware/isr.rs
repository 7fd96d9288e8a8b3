use vstd::prelude::*;
use crate::hardware::idt::{kernel_gate, set_idt_gate, IdtEntry};

verus! {

/// The registers the interrupt stubs save on the stack, with the interrupt
/// number and error code, and what the processor pushed.
#[derive(Debug, Clone, Copy)]
pub struct Registers {
    /// The data segment selector.
    pub ds: u64,
    /// The destination index register.
    pub rdi: u64,
    /// The source index register.
    pub rsi: u64,
    /// The base pointer.
    pub rbp: u64,
    /// The stack pointer.
    pub rsp: u64,
    /// The data register.
    pub rdx: u64,
    /// The counter register.
    pub rcx: u64,
    /// The base register.
    pub rbx: u64,
    /// The accumulator.
    pub rax: u64,
    /// The interrupt number.
    pub int_no: u64,
    /// The error code.
    pub err_code: u64,
    /// The instruction pointer.
    pub rip: u64,
    /// The code segment selector.
    pub cs: u64,
    /// The flags register.
    pub rflags: u64,
    /// The user stack pointer.
    pub user_rsp: u64,
    /// The stack segment selector.
    pub ss: u64,
}

/// The gates of the first 48 vectors, once installed: the 32 exception
/// stubs `isr`, then the 16 interrupt request stubs `irq`.
pub open spec fn installed_gates(
    entries: Seq<IdtEntry>,
    isr: Seq<u64>,
    irq: Seq<u64>,
) -> Seq<IdtEntry> {
    Seq::new(
        entries.len(),
        |i: int|
            if i < 32 {
                kernel_gate(isr[i])
            } else if i < 48 {
                kernel_gate(irq[i - 32])
            } else {
                entries[i]
            },
    )
}

/// The port writes that set up the two interrupt controllers: both are
/// started in cascade mode (0x11), given their vector offsets (0x20 and
/// 0x28), told of the cascade (a slave at line 2; the slave's identity 2),
/// put in 8086 mode, and have every line unmasked.
pub open spec fn pic_setup_writes() -> Seq<(u16, u8)> {
    seq![
        (0x20u16, 0x11u8),
        (0xA0u16, 0x11u8),
        (0x21u16, 0x20u8),
        (0xA1u16, 0x28u8),
        (0x21u16, 0x04u8),
        (0xA1u16, 0x02u8),
        (0x21u16, 0x01u8),
        (0xA1u16, 0x01u8),
        (0x21u16, 0x00u8),
        (0xA1u16, 0x00u8)
    ]
}

/// Installs the 32 exception stubs at `isr` at vectors 0 to 31 and the 16
/// interrupt request stubs at `irq` at vectors 32 to 47 of `entries`, and
/// returns the port writes that set up the interrupt controllers (see
/// [`pic_setup_writes`]), to be made before the requests' gates are used.
pub fn isr_install(entries: &mut Vec<IdtEntry>, isr: &Vec<u64>, irq: &Vec<u64>) -> (writes: Vec<(u16, u8)>)
    requires
        old(entries)@.len() >= 48,
        isr@.len() == 32,
        irq@.len() == 16,
    ensures
        final(entries)@ == installed_gates(old(entries)@, isr@, irq@),
        writes@ == pic_setup_writes(),
{
    let ghost e0 = entries@;
    let mut i: usize = 0;
    while i < 48
        invariant
            i <= 48,
            e0.len() >= 48,
            isr@.len() == 32,
            irq@.len() == 16,
            entries@.len() == e0.len(),
            forall|j: int|
                0 <= j < entries@.len() ==> #[trigger] entries@[j] == if j < i {
                    installed_gates(e0, isr@, irq@)[j]
                } else {
                    e0[j]
                },
        decreases 48 - i,
    {
        if i < 32 {
            set_idt_gate(entries, i, isr[i]);
        } else {
            set_idt_gate(entries, i, irq[i - 32]);
        }
        i = i + 1;
    }
    assert(entries@ =~= installed_gates(e0, isr@, irq@));
    let mut writes: Vec<(u16, u8)> = Vec::new();
    writes.push((0x20, 0x11));
    writes.push((0xA0, 0x11));
    writes.push((0x21, 0x20));
    writes.push((0xA1, 0x28));
    writes.push((0x21, 0x04));
    writes.push((0xA1, 0x02));
    writes.push((0x21, 0x01));
    writes.push((0xA1, 0x01));
    writes.push((0x21, 0x00));
    writes.push((0xA1, 0x00));
    assert(writes@ =~= pic_setup_writes());
    writes
}

/// The description of exception `n` of the processor.
pub open spec fn exception_text(n: int) -> Seq<char> {
    if n == 0 {
        "Division by zero exception"@
    } else if n == 1 {
        "Debug exception"@
    } else if n == 2 {
        "Non maskable interrupt"@
    } else if n == 3 {
        "Breakpoint exception"@
    } else if n == 4 {
        "Into detected overflow"@
    } else if n == 5 {
        "Out of bounds exception"@
    } else if n == 6 {
        "Invalid opcode exception"@
    } else if n == 7 {
        "No coprocessor exception"@
    } else if n == 8 {
        "Double fault (pushes an error code)"@
    } else if n == 9 {
        "Coprocessor segment overrun"@
    } else if n == 10 {
        "Bad TSS (pushes an error code)"@
    } else if n == 11 {
        "Segment not present (pushes an error code)"@
    } else if n == 12 {
        "Stack fault (pushes an error code)"@
    } else if n == 13 {
        "General protection fault (pushes an error code)"@
    } else if n == 14 {
        "Page fault (pushes an error code)"@
    } else if n == 15 {
        "Unknown interrupt exception"@
    } else if n == 16 {
        "Coprocessor fault"@
    } else if n == 17 {
        "Alignment check exception"@
    } else if n == 18 {
        "Machine check exception"@
    } else {
        "Reserved"@
    }
}

/// The description of exception `n` of the processor.
pub fn exception_message(n: usize) -> (m: &'static str)
    requires
        n < 32,
    ensures
        m@ == exception_text(n as int),
{
    match n {
        0 => "Division by zero exception",
        1 => "Debug exception",
        2 => "Non maskable interrupt",
        3 => "Breakpoint exception",
        4 => "Into detected overflow",
        5 => "Out of bounds exception",
        6 => "Invalid opcode exception",
        7 => "No coprocessor exception",
        8 => "Double fault (pushes an error code)",
        9 => "Coprocessor segment overrun",
        10 => "Bad TSS (pushes an error code)",
        11 => "Segment not present (pushes an error code)",
        12 => "Stack fault (pushes an error code)",
        13 => "General protection fault (pushes an error code)",
        14 => "Page fault (pushes an error code)",
        15 => "Unknown interrupt exception",
        16 => "Coprocessor fault",
        17 => "Alignment check exception",
        18 => "Machine check exception",
        _ => "Reserved",
    }
}


/// The writes that end an interrupt request numbered `int_no`: to the slave
/// interrupt controller first for the requests it serves (numbers 40 and
/// up), then to the master.
pub fn irq_handler(int_no: u64) -> (writes: Vec<(u16, u8)>)
    ensures
        int_no >= 40 ==> writes@ == seq![(0xA0u16, 0x20u8), (0x20u16, 0x20u8)],
        int_no < 40 ==> writes@ == seq![(0x20u16, 0x20u8)],
{
    let mut writes: Vec<(u16, u8)> = Vec::new();
    if int_no >= 40 {
        writes.push((0xA0, 0x20));
    }
    writes.push((0x20, 0x20));
    assert(int_no >= 40 ==> writes@ =~= seq![(0xA0u16, 0x20u8), (0x20u16, 0x20u8)]);
    assert(int_no < 40 ==> writes@ =~= seq![(0x20u16, 0x20u8)]);
    writes
}

} // verus!
