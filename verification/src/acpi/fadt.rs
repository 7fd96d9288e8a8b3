use vstd::prelude::*;
use crate::acpi::sdt::SdtHeader;

verus! {

/// The bit of the PM1a control register that is set when ACPI is enabled.
pub const SCI_EN: u16 = 1;

/// The Fixed ACPI Description Table: the power management hardware of the
/// machine.
#[derive(Debug, Clone, Copy)]
pub struct Fadt {
    /// The common header.
    pub header: SdtHeader,
    /// The address of the firmware control structure.
    pub firmware_ctrl: u32,
    /// The address of the differentiated system description table.
    pub dsdt: u32,
    /// Reserved.
    pub reserved: u8,
    /// The preferred power management profile.
    pub preferred_pm_profile: u8,
    /// The interrupt of the system control interrupt.
    pub sci_int: u16,
    /// The port of the system management command.
    pub smi_cmd: u32,
    /// The command that enables ACPI.
    pub acpi_enable: u8,
    /// The command that disables ACPI.
    pub acpi_disable: u8,
    /// The command that enters state S4.
    pub s4bios_req: u8,
    /// Processor performance state control.
    pub pstate_cnt: u8,
    /// The port of the PM1a event block.
    pub pm1a_evt_blk: u32,
    /// The port of the PM1b event block.
    pub pm1b_evt_blk: u32,
    /// The port of the PM1a control block.
    pub pm1a_cnt_blk: u32,
    /// The port of the PM1b control block.
    pub pm1b_cnt_blk: u32,
    /// The port of the PM2 control block.
    pub pm2_cnt_blk: u32,
    /// The port of the PM timer block.
    pub pm_tmr_blk: u32,
    /// The port of the GPE0 block.
    pub gpe0_blk: u32,
    /// The port of the GPE1 block.
    pub gpe1_blk: u32,
    /// The length of the PM1 event block.
    pub pm1_evt_len: u8,
    /// The length of the PM1 control block.
    pub pm1_cnt_len: u8,
    /// The length of the PM2 control block.
    pub pm2_cnt_len: u8,
    /// The length of the PM timer block.
    pub pm_tmr_len: u8,
    /// The length of the GPE0 block.
    pub gpe0_blk_len: u8,
    /// The length of the GPE1 block.
    pub gpe1_blk_len: u8,
    /// The base of the GPE1 events.
    pub gpe1_base: u8,
    /// C-state control.
    pub cst_cnt: u8,
    /// The latency of state C2.
    pub p_lvl2_lat: u16,
    /// The latency of state C3.
    pub p_lvl3_lat: u16,
    /// The flush size of the cache.
    pub flush_size: u16,
    /// The flush stride of the cache.
    pub flush_stride: u16,
    /// The offset of the duty register.
    pub duty_offset: u8,
    /// The width of the duty register.
    pub duty_width: u8,
    /// The day of the alarm.
    pub day_alarm: u8,
    /// The month of the alarm.
    pub mon_alarm: u8,
    /// The century register of the clock.
    pub century: u8,
    /// Boot architecture flags.
    pub iapc_boot_arch: u16,
    /// Reserved.
    pub reserved2: u8,
    /// Miscellaneous flags.
    pub flags: u32,
    /// The reset register.
    pub reset_reg: GenericAddress,
    /// The value written to the reset register.
    pub reset_value: u8,
    /// ARM boot architecture flags.
    pub arm_boot_arch: u16,
    /// The minor version of the table.
    pub fadt_minor_version: u8,
    /// The 64-bit address of the firmware control structure.
    pub x_firmware_ctrl: u64,
}

/// The address of a register, as ACPI gives it.
#[derive(Debug, Clone, Copy)]
pub struct GenericAddress {
    /// The address space of the register.
    pub address_space_id: u8,
    /// The width of the register in bits.
    pub register_bit_width: u8,
    /// The offset of the register in bits.
    pub register_bit_offset: u8,
    /// The size of an access.
    pub access_size: u8,
    /// The address.
    pub address: u64,
}

impl Fadt {
    /// The port of the PM1a control register, read to tell whether ACPI is
    /// enabled.
    pub fn pm1a_control_port(&self) -> (port: u16)
        ensures
            port == self.pm1a_cnt_blk as u16,
    {
        self.pm1a_cnt_blk as u16
    }

    /// Checks, from the value `pm1a_value` read from the PM1a control
    /// register, that ACPI is enabled: its SCI_EN bit must be set.
    pub fn ensure_acpi_enabled(&self, pm1a_value: u16)
        requires
            pm1a_value & SCI_EN != 0,
    {
    }
}

} // verus!
