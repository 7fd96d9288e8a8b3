use vstd::prelude::*;

pub mod acpi;
pub mod apic;
pub mod cpu;
pub mod data_types;
pub mod drivers;
pub mod fs;
pub mod gdt;
pub mod hardware;
pub mod interrupts;
pub mod io;
pub mod memory;
pub mod structures;

verus! {

} // verus!
