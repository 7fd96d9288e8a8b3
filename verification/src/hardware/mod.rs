pub mod idt;
pub mod isr;
