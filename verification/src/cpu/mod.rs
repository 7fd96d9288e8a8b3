pub mod gdt;
pub mod rtc;
pub mod tss;
