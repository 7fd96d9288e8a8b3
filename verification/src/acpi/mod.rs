pub mod fadt;
pub mod madt;
pub mod rsdp;
pub mod sdt;
