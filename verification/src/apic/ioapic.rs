use vstd::prelude::*;
use crate::acpi::madt::{ApicHeader, ApicType, MADT_SIZE};
use crate::fs::disk::{le32, read_u32};

verus! {

/// The version register of the I/O APIC.
pub const IO_APIC_VERSION_REG: usize = 0x1;
/// The first register of the redirection table.
pub const IO_APIC_REDIRECTION_TABLE: u32 = 0x10;
/// The bit that masks an entry of the redirection table.
pub const IO_APIC_INTERRUPT_DISABLE: u32 = 0x00010000;
/// The vector of interrupt request 0.
pub const BASE_IRQ: u32 = 0x20;
/// The size of an I/O APIC entry of the MADT.
pub const IOAPIC_ENTRY_SIZE: u8 = 12;

/// An I/O APIC, as its entry of the MADT describes it. Its registers are
/// reached through memory; these methods say which writes to make, as pairs
/// of register and value.
#[derive(Debug, Clone, Copy)]
pub struct IoApic {
    apic_header: ApicHeader,
    ioapic_id: u8,
    reserved: u8,
    ioapic_address: u32,
    global_system_interrupt_base: u32,
}

/// How far `pos` is before `end`; 0 at or past it.
pub open spec fn distance(pos: int, end: int) -> nat {
    if pos < end {
        (end - pos) as nat
    } else {
        0
    }
}

/// The place of the first I/O APIC entry of the MADT held in `b`, from the
/// entry at `pos` on, entries ending at `end`; `None` when there is none, or
/// when an entry of length 0, or one past the bytes, comes first.
pub open spec fn ioapic_entry_from(b: Seq<u8>, pos: int, end: int) -> Option<int>
    decreases distance(pos, end),
{
    if pos >= end || pos < 0 || pos + 1 >= b.len() {
        None
    } else if b[pos] == 1 {
        Some(pos)
    } else {
        let len = b[pos + 1] as int;
        if len == 0 {
            None
        } else {
            ioapic_entry_from(b, pos + len, end)
        }
    }
}

proof fn lemma_ioapic_entry_after(b: Seq<u8>, pos: int, end: int)
    ensures
        ioapic_entry_from(b, pos, end) matches Some(p) ==> pos <= p < end,
    decreases distance(pos, end),
{
    if pos < end && 0 <= pos && pos + 1 < b.len() && b[pos] != 1 && b[pos + 1] != 0 {
        lemma_ioapic_entry_after(b, pos + b[pos + 1], end);
    }
}

impl IoApic {
    /// An I/O APIC entry of 12 bytes with every other field 0.
    pub fn default() -> (a: Self)
        ensures
            a.spec_address() == 0,
            a.spec_id() == 0,
            a.spec_interrupt_base() == 0,
    {
        IoApic {
            apic_header: ApicHeader { apic_type: ApicType::IOApic, length: IOAPIC_ENTRY_SIZE },
            ioapic_id: 0,
            reserved: 0,
            ioapic_address: 0,
            global_system_interrupt_base: 0,
        }
    }

    /// The address of the registers.
    pub closed spec fn spec_address(&self) -> u32 {
        self.ioapic_address
    }

    /// The identifier.
    pub closed spec fn spec_id(&self) -> u8 {
        self.ioapic_id
    }

    /// The first global interrupt it handles.
    pub closed spec fn spec_interrupt_base(&self) -> u32 {
        self.global_system_interrupt_base
    }

    /// The address of the registers.
    pub fn address(&self) -> (a: u32)
        ensures
            a == self.spec_address(),
    {
        self.ioapic_address
    }

    /// The first I/O APIC of the MADT held in `madt`, whose length is in its
    /// header: its entries follow the 44 bytes of the fixed part, each with
    /// its kind and length in its first two bytes.
    pub fn get_from_madt(madt: &Vec<u8>) -> (a: IoApic)
        requires
            madt@.len() >= MADT_SIZE,
            le32(madt@, 4) <= madt@.len(),
            ioapic_entry_from(madt@, MADT_SIZE as int, le32(madt@, 4)) matches Some(p) && p + 12
                <= madt@.len(),
        ensures
            ({
                let p = ioapic_entry_from(madt@, MADT_SIZE as int, le32(madt@, 4))->0;
                &&& a.spec_id() == madt@[p + 2]
                &&& a.spec_address() == le32(madt@, p + 4)
                &&& a.spec_interrupt_base() == le32(madt@, p + 8)
            }),
    {
        let _len = madt.len();
        let length = read_u32(madt.as_slice(), 4) as usize;
        let mut start: usize = MADT_SIZE;
        let end = length;
        while start < end
            invariant
                madt@.len() >= MADT_SIZE,
                madt@.len() <= usize::MAX,
                end == le32(madt@, 4),
                end <= madt@.len(),
                MADT_SIZE <= start,
                ioapic_entry_from(madt@, MADT_SIZE as int, end as int) == ioapic_entry_from(
                    madt@,
                    start as int,
                    end as int,
                ),
                ioapic_entry_from(madt@, MADT_SIZE as int, end as int) matches Some(p) && p + 12
                    <= madt@.len(),
            decreases end - start,
        {
            proof {
                lemma_ioapic_entry_after(madt@, start as int, end as int);
                if madt@[start as int] != 1 {
                    lemma_ioapic_entry_after(madt@, start + madt@[start + 1], end as int);
                }
            }
            if madt[start] == 1 {
                return IoApic {
                    apic_header: ApicHeader { apic_type: ApicType::IOApic, length: madt[start + 1] },
                    ioapic_id: madt[start + 2],
                    reserved: madt[start + 3],
                    ioapic_address: read_u32(madt.as_slice(), start + 4),
                    global_system_interrupt_base: read_u32(madt.as_slice(), start + 8),
                };
            }
            start = start + madt[start + 1] as usize;
        }
        IoApic::default()
    }

    /// The writes that mask the entries 0 to `max_irq_entries` of the
    /// redirection table, entry `i` on vector 0x20 + `i`.
    pub fn setup(&self, max_irq_entries: u8) -> (writes: Vec<(u32, u32)>)
        ensures
            writes@.len() == 2 * (max_irq_entries + 1),
            forall|i: int|
                0 <= i <= max_irq_entries ==> #[trigger] writes@[2 * i] == (
                    (IO_APIC_REDIRECTION_TABLE + 2 * i) as u32,
                    IO_APIC_INTERRUPT_DISABLE | ((BASE_IRQ + i) as u32),
                ),
            forall|i: int|
                0 <= i <= max_irq_entries ==> #[trigger] writes@[2 * i + 1] == (
                    (IO_APIC_REDIRECTION_TABLE + 2 * i + 1) as u32,
                    0u32,
                ),
    {
        let mut writes: Vec<(u32, u32)> = Vec::new();
        let mut i: u32 = 0;
        while i <= max_irq_entries as u32
            invariant
                i <= max_irq_entries + 1,
                writes@.len() == 2 * i,
                forall|j: int|
                    0 <= j < i ==> #[trigger] writes@[2 * j] == (
                        (IO_APIC_REDIRECTION_TABLE + 2 * j) as u32,
                        IO_APIC_INTERRUPT_DISABLE | ((BASE_IRQ + j) as u32),
                    ),
                forall|j: int|
                    0 <= j < i ==> #[trigger] writes@[2 * j + 1] == (
                        (IO_APIC_REDIRECTION_TABLE + 2 * j + 1) as u32,
                        0u32,
                    ),
            decreases max_irq_entries + 1 - i,
        {
            let ghost before = writes@;
            writes.push((IO_APIC_REDIRECTION_TABLE + 2 * i, IO_APIC_INTERRUPT_DISABLE | (BASE_IRQ + i)));
            writes.push((IO_APIC_REDIRECTION_TABLE + (i * 2 + 1), 0));
            proof {
                assert forall|j: int| 0 <= j < i + 1 implies #[trigger] writes@[2 * j] == (
                    (IO_APIC_REDIRECTION_TABLE + 2 * j) as u32,
                    IO_APIC_INTERRUPT_DISABLE | ((BASE_IRQ + j) as u32),
                ) by {
                    if j < i {
                        assert(writes@[2 * j] == before[2 * j]);
                    }
                }
                assert forall|j: int| 0 <= j < i + 1 implies #[trigger] writes@[2 * j + 1] == (
                    (IO_APIC_REDIRECTION_TABLE + 2 * j + 1) as u32,
                    0u32,
                ) by {
                    if j < i {
                        assert(writes@[2 * j + 1] == before[2 * j + 1]);
                    }
                }
            }
            i = i + 1;
        }
        writes
    }

    /// The write that routes interrupt request `irq` to vector 0x20 + `irq`,
    /// unmasked.
    pub fn enable_irq(&self, irq: u8) -> (w: (u32, u32))
        ensures
            w == ((IO_APIC_REDIRECTION_TABLE + 2 * irq) as u32, (BASE_IRQ + irq) as u32),
    {
        (IO_APIC_REDIRECTION_TABLE + (2 * irq as u32), BASE_IRQ + irq as u32)
    }

    /// The number of the last entry of the redirection table, from the
    /// version register reading `version_register`: its bits 16 to 23.
    pub fn max_irq_entries(&self, version_register: u32) -> (m: u8)
        ensures
            m == ((version_register >> 16u32) & 0xFF) as u8,
    {
        ((version_register >> 16) & 0xFF) as u8
    }
}

} // verus!
