use vstd::prelude::*;
use crate::fs::disk::{le16, le32, read_u16, read_u32};

verus! {

/// The boot sector of a FAT32 volume: 512 bytes that describe its layout.
#[derive(Debug)]
pub struct Fat32BootSector {
    /// Jump instruction to the boot code.
    pub jump_instruction: [u8; 3],
    /// The name of the formatting software.
    pub oem_name: [u8; 8],
    /// Bytes per sector.
    pub bytes_per_sector: u16,
    /// Sectors per cluster, the unit of allocation.
    pub sectors_per_cluster: u8,
    /// Sectors before the first FAT, the boot sector included.
    pub reserved_sectors: u16,
    /// The number of FATs, usually 2.
    pub fat_count: u8,
    /// Entries of the root directory (0 for FAT32).
    pub root_dir_entries: u16,
    /// Sectors of the volume, or 0 when `total_sectors_large` holds them.
    pub total_sectors: u16,
    /// The media descriptor.
    pub media_descriptor: u8,
    /// Sectors per FAT, or 0 when `sectors_per_fat_large` holds them.
    pub sectors_per_fat: u16,
    /// Sectors per track.
    pub sectors_per_track: u16,
    /// The number of heads.
    pub head_count: u16,
    /// Sectors before the partition.
    pub hidden_sectors: u32,
    /// Sectors of the volume when `total_sectors` is 0.
    pub total_sectors_large: u32,
    /// Sectors per FAT for FAT32.
    pub sectors_per_fat_large: u32,
    /// Mirroring flags.
    pub flags: u16,
    /// The version of the file system.
    pub version: u16,
    /// The first cluster of the root directory.
    pub root_dir_start: u32,
    /// The sector of the information structure.
    pub fs_info_sector: u16,
    /// The sector of the backup boot sector.
    pub backup_boot_sector: u16,
    /// Reserved.
    pub reserved0: u32,
    /// Reserved.
    pub reserved1: u32,
    /// Reserved.
    pub reserved2: u32,
    /// The drive number.
    pub drive_number: u8,
    /// Reserved.
    pub reserved3: u8,
    /// The extended boot signature, 0x29.
    pub ext_signature: u8,
    /// The serial number of the volume.
    pub serial_number: u32,
    /// The label of the volume.
    pub volume_label: [u8; 11],
    /// The file system type, "FAT32   ".
    pub system_id: [u8; 8],
    /// The boot code: 420 bytes.
    pub boot_code: Vec<u8>,
    /// The signature 0xAA55.
    pub boot_signature: u16,
}

impl Fat32BootSector {
    /// The boot sector held in the 512 bytes `b`, fields in little-endian
    /// order at their places.
    pub fn from_bytes(b: &[u8]) -> (s: Self)
        requires
            b@.len() == 512,
        ensures
            s.jump_instruction@ == b@.subrange(0, 3),
            s.oem_name@ == b@.subrange(3, 11),
            s.bytes_per_sector == le16(b@, 11),
            s.sectors_per_cluster == b@[13],
            s.reserved_sectors == le16(b@, 14),
            s.fat_count == b@[16],
            s.root_dir_entries == le16(b@, 17),
            s.total_sectors == le16(b@, 19),
            s.media_descriptor == b@[21],
            s.sectors_per_fat == le16(b@, 22),
            s.sectors_per_track == le16(b@, 24),
            s.head_count == le16(b@, 26),
            s.hidden_sectors == le32(b@, 28),
            s.total_sectors_large == le32(b@, 32),
            s.sectors_per_fat_large == le32(b@, 36),
            s.flags == le16(b@, 40),
            s.version == le16(b@, 42),
            s.root_dir_start == le32(b@, 44),
            s.fs_info_sector == le16(b@, 48),
            s.backup_boot_sector == le16(b@, 50),
            s.reserved0 == le32(b@, 52),
            s.reserved1 == le32(b@, 56),
            s.reserved2 == le32(b@, 60),
            s.drive_number == b@[64],
            s.reserved3 == b@[65],
            s.ext_signature == b@[66],
            s.serial_number == le32(b@, 67),
            s.volume_label@ == b@.subrange(71, 82),
            s.system_id@ == b@.subrange(82, 90),
            s.boot_code@ == b@.subrange(90, 510),
            s.boot_signature == le16(b@, 510),
    {
        let mut boot_code: Vec<u8> = Vec::new();
        let mut i: usize = 90;
        while i < 510
            invariant
                90 <= i <= 510,
                b@.len() == 512,
                boot_code@ == b@.subrange(90, i as int),
            decreases 510 - i,
        {
            boot_code.push(b[i]);
            i = i + 1;
        }
        let s = Fat32BootSector {
                jump_instruction: [b[0], b[1], b[2]],
                oem_name: [b[3], b[4], b[5], b[6], b[7], b[8], b[9], b[10]],
                bytes_per_sector: read_u16(b, 11),
                sectors_per_cluster: b[13],
                reserved_sectors: read_u16(b, 14),
                fat_count: b[16],
                root_dir_entries: read_u16(b, 17),
                total_sectors: read_u16(b, 19),
                media_descriptor: b[21],
                sectors_per_fat: read_u16(b, 22),
                sectors_per_track: read_u16(b, 24),
                head_count: read_u16(b, 26),
                hidden_sectors: read_u32(b, 28),
                total_sectors_large: read_u32(b, 32),
                sectors_per_fat_large: read_u32(b, 36),
                flags: read_u16(b, 40),
                version: read_u16(b, 42),
                root_dir_start: read_u32(b, 44),
                fs_info_sector: read_u16(b, 48),
                backup_boot_sector: read_u16(b, 50),
                reserved0: read_u32(b, 52),
                reserved1: read_u32(b, 56),
                reserved2: read_u32(b, 60),
                drive_number: b[64],
                reserved3: b[65],
                ext_signature: b[66],
                serial_number: read_u32(b, 67),
                volume_label: [b[71], b[72], b[73], b[74], b[75], b[76], b[77], b[78], b[79], b[80], b[81]],
                system_id: [b[82], b[83], b[84], b[85], b[86], b[87], b[88], b[89]],
                boot_code: boot_code,
                boot_signature: read_u16(b, 510),
        };
        assert(s.jump_instruction@ =~= b@.subrange(0, 3));
        assert(s.oem_name@ =~= b@.subrange(3, 11));
        assert(s.volume_label@ =~= b@.subrange(71, 82));
        assert(s.system_id@ =~= b@.subrange(82, 90));
        s
    }
}

} // verus!
