use vstd::prelude::*;
use crate::cpu::gdt::{get_field, set_field, field_of, with_field, is_null_tss, TssDescriptor};
use crate::structures::DescriptorTablePointer;

verus! {

/// The privilege level of a segment: the lower the level, the more the code
/// running at it may do.
#[derive(Debug, Clone, Copy, PartialEq, Eq, Structural)]
pub enum PrivilegeLevel {
    /// Level 0: the kernel, with full access to the machine.
    Kernel,
    /// Level 3: user programs, with restricted access.
    User,
}

/// The number of a privilege level.
pub open spec fn privilege_bits(p: PrivilegeLevel) -> u16 {
    match p {
        PrivilegeLevel::Kernel => 0,
        PrivilegeLevel::User => 3,
    }
}

impl Default for PrivilegeLevel {
    fn default() -> (p: Self)
        ensures
            p == PrivilegeLevel::Kernel,
    {
        PrivilegeLevel::Kernel
    }
}

impl PrivilegeLevel {
    /// The number of the level.
    pub fn into_bits(self) -> (b: u16)
        ensures
            b == privilege_bits(self),
    {
        match self {
            PrivilegeLevel::Kernel => 0,
            PrivilegeLevel::User => 3,
        }
    }

    /// The level with number `value`, which must be 0 or 3.
    pub fn from_bits(value: u16) -> (p: Self)
        requires
            value == 0 || value == 3,
        ensures
            privilege_bits(p) == value,
    {
        if value == 0 {
            PrivilegeLevel::Kernel
        } else {
            PrivilegeLevel::User
        }
    }
}

/// A segment selector: the index of a descriptor shifted left by 3, with the
/// privilege level in the low 2 bits.
#[derive(Debug, Clone, Copy)]
pub struct SegmentSelector(pub u16);

impl SegmentSelector {
    /// The selector of descriptor `index` at `privilege_level`.
    pub fn new(index: u16, privilege_level: PrivilegeLevel) -> (s: Self)
        ensures
            s.0 == (index << 3u16) | privilege_bits(privilege_level),
    {
        SegmentSelector(index << 3 | privilege_level.into_bits())
    }
}

/// The type of a segment.
#[derive(Debug, Clone, Copy, PartialEq, Eq, Structural)]
pub enum SegmentType {
    /// No type: the null descriptor (type 0).
    Null,
    /// Code (type 26).
    Code,
    /// Code that was accessed (type 27).
    CodeAccessed,
    /// Data (type 18).
    Data,
    /// Data that was accessed (type 19).
    DataAccessed,
    /// A task state segment (type 9).
    Task,
}

/// The number of a segment type.
pub open spec fn segment_type_bits(t: SegmentType) -> u8 {
    match t {
        SegmentType::Null => 0,
        SegmentType::Code => 26,
        SegmentType::CodeAccessed => 27,
        SegmentType::Data => 18,
        SegmentType::DataAccessed => 19,
        SegmentType::Task => 9,
    }
}

impl Default for SegmentType {
    fn default() -> (t: Self)
        ensures
            t == SegmentType::Null,
    {
        SegmentType::Null
    }
}

impl SegmentType {
    /// The number of the type.
    pub fn into_bits(self) -> (b: u8)
        ensures
            b == segment_type_bits(self),
    {
        match self {
            SegmentType::Null => 0,
            SegmentType::Code => 26,
            SegmentType::CodeAccessed => 27,
            SegmentType::Data => 18,
            SegmentType::DataAccessed => 19,
            SegmentType::Task => 9,
        }
    }

    /// The type with number `value`, which must be 0, 26, 27, 18, 19 or 9.
    pub fn from_bits(value: u8) -> (t: Self)
        requires
            value == 0 || value == 26 || value == 27 || value == 18 || value == 19 || value == 9,
        ensures
            segment_type_bits(t) == value,
    {
        match value {
            26 => SegmentType::Code,
            27 => SegmentType::CodeAccessed,
            18 => SegmentType::Data,
            19 => SegmentType::DataAccessed,
            9 => SegmentType::Task,
            _ => SegmentType::Null,
        }
    }
}

/// The 16 attribute bits of a segment descriptor, from the low bit up: the
/// segment type (5 bits), the privilege level (2), present, the high bits of
/// the limit (4), available, long mode, default operation size, granularity.
#[derive(Debug, Clone, Copy)]
pub struct SegmentAttributes(u16);

impl SegmentAttributes {
    /// The 16 bits.
    pub closed spec fn spec_bits(&self) -> u16 {
        self.0
    }

    /// All bits clear.
    pub fn new() -> (a: Self)
        ensures
            a.spec_bits() == 0,
    {
        SegmentAttributes(0)
    }

    /// These attributes with the segment type set to `t`.
    pub fn with_segment_type(self, t: SegmentType) -> (a: Self)
        ensures
            a.spec_bits() == with_field(self.spec_bits(), 0, 5, segment_type_bits(t) as u16),
    {
        SegmentAttributes(set_field(self.0, 0, 5, t.into_bits() as u16))
    }

    /// These attributes with the privilege level set to `dpl`.
    pub fn with_dpl(self, dpl: PrivilegeLevel) -> (a: Self)
        ensures
            a.spec_bits() == with_field(self.spec_bits(), 5, 2, privilege_bits(dpl)),
    {
        SegmentAttributes(set_field(self.0, 5, 2, dpl.into_bits()))
    }

    /// These attributes with the present flag set to `present`.
    pub fn with_present(self, present: bool) -> (a: Self)
        ensures
            a.spec_bits() == with_field(self.spec_bits(), 7, 1, if present { 1 } else { 0 }),
    {
        SegmentAttributes(set_field(self.0, 7, 1, if present { 1 } else { 0 }))
    }

    /// These attributes with the long mode flag set to `long_mode`.
    pub fn with_long_mode(self, long_mode: bool) -> (a: Self)
        ensures
            a.spec_bits() == with_field(self.spec_bits(), 13, 1, if long_mode { 1 } else { 0 }),
    {
        SegmentAttributes(set_field(self.0, 13, 1, if long_mode { 1 } else { 0 }))
    }

    /// The present flag.
    pub fn present(self) -> (b: bool)
        ensures
            b == (field_of(self.spec_bits(), 7, 1) == 1),
    {
        get_field(self.0, 7, 1) == 1
    }
}

/// The attribute bits of a descriptor of type `t` at level `dpl`, with the
/// present and long mode flags given and every other bit clear.
pub open spec fn descriptor_attributes(
    t: SegmentType,
    dpl: PrivilegeLevel,
    present: bool,
    long_mode: bool,
) -> u16 {
    with_field(
        with_field(
            with_field(with_field(0, 0, 5, segment_type_bits(t) as u16), 5, 2, privilege_bits(dpl)),
            7,
            1,
            if present { 1 } else { 0 },
        ),
        13,
        1,
        if long_mode { 1 } else { 0 },
    )
}

/// A segment descriptor of the descriptor table, with base 0.
#[derive(Debug, Clone, Copy)]
pub struct SegmentDescriptor {
    /// The low 16 bits of the limit.
    pub limit_low: u16,
    /// Bits 0..16 of the base.
    pub base_low: u16,
    /// Bits 16..24 of the base.
    pub base_middle: u8,
    /// The attribute bits.
    pub attributes: SegmentAttributes,
    /// Bits 24..32 of the base.
    pub base_high: u8,
}

/// Whether `d` has limit 0, base 0, and the attributes that
/// `descriptor_attributes` gives.
pub open spec fn is_descriptor(
    d: SegmentDescriptor,
    t: SegmentType,
    dpl: PrivilegeLevel,
    present: bool,
    long_mode: bool,
) -> bool {
    &&& d.limit_low == 0
    &&& d.base_low == 0
    &&& d.base_middle == 0
    &&& d.base_high == 0
    &&& d.attributes.spec_bits() == descriptor_attributes(t, dpl, present, long_mode)
}

impl SegmentDescriptor {
    /// The null descriptor: no type, level 0, present.
    fn null() -> (d: Self)
        ensures
            is_descriptor(d, SegmentType::Null, PrivilegeLevel::Kernel, true, false),
    {
        Self::new(0, SegmentType::Null, PrivilegeLevel::Kernel, true, false)
    }

    /// Code of the kernel.
    fn kernel_code() -> (d: Self)
        ensures
            is_descriptor(d, SegmentType::Code, PrivilegeLevel::Kernel, true, true),
    {
        Self::new_from_type(SegmentType::Code, PrivilegeLevel::Kernel)
    }

    /// Data of the kernel.
    fn kernel_data() -> (d: Self)
        ensures
            is_descriptor(d, SegmentType::Data, PrivilegeLevel::Kernel, true, false),
    {
        Self::new_from_type(SegmentType::Data, PrivilegeLevel::Kernel)
    }

    /// Code of user programs.
    fn user_code() -> (d: Self)
        ensures
            is_descriptor(d, SegmentType::Code, PrivilegeLevel::User, true, true),
    {
        Self::new_from_type(SegmentType::Code, PrivilegeLevel::User)
    }

    /// Data of user programs.
    fn user_data() -> (d: Self)
        ensures
            is_descriptor(d, SegmentType::Data, PrivilegeLevel::User, true, false),
    {
        Self::new_from_type(SegmentType::Data, PrivilegeLevel::User)
    }

    /// A descriptor with base 0 and the attributes given.
    fn new(
        limit_low: u16,
        segment_type: SegmentType,
        dpl: PrivilegeLevel,
        present: bool,
        long_mode: bool,
    ) -> (d: Self)
        ensures
            d.limit_low == limit_low,
            d.base_low == 0,
            d.base_middle == 0,
            d.base_high == 0,
            d.attributes.spec_bits() == descriptor_attributes(segment_type, dpl, present, long_mode),
    {
        SegmentDescriptor {
            limit_low,
            base_low: 0,
            base_middle: 0,
            attributes: SegmentAttributes::new().with_segment_type(segment_type).with_dpl(
                dpl,
            ).with_present(present).with_long_mode(long_mode),
            base_high: 0,
        }
    }

    /// A present descriptor of type `segment_type` at level `dpl`, in long
    /// mode when it is a code segment.
    fn new_from_type(segment_type: SegmentType, dpl: PrivilegeLevel) -> (d: Self)
        ensures
            is_descriptor(d, segment_type, dpl, true, segment_type == SegmentType::Code),
    {
        let long_mode = match segment_type {
            SegmentType::Code => true,
            _ => false,
        };
        Self::new(0, segment_type, dpl, true, long_mode)
    }
}

/// The size in bytes of the global descriptor table: five descriptors of 8
/// bytes and the 16-byte descriptor of the task state segment.
pub const GDT_SIZE: u16 = 56;

/// The global descriptor table: the null descriptor, code and data for the
/// kernel, code and data for user programs, and the task state segment.
#[derive(Debug, Clone, Copy)]
pub struct GlobalDescriptorTable {
    null: SegmentDescriptor,
    kernel_code: SegmentDescriptor,
    kernel_data: SegmentDescriptor,
    user_code: SegmentDescriptor,
    user_data: SegmentDescriptor,
    /// The descriptor of the task state segment.
    pub tss: TssDescriptor,
}

impl GlobalDescriptorTable {
    /// The descriptors in table order, without the task state segment.
    pub closed spec fn segments(&self) -> Seq<SegmentDescriptor> {
        seq![self.null, self.kernel_code, self.kernel_data, self.user_code, self.user_data]
    }

    /// The descriptor of the task state segment.
    pub closed spec fn spec_tss(&self) -> TssDescriptor {
        self.tss
    }

    /// The table with a null descriptor, kernel code and data at level 0,
    /// user code and data at level 3 (code in long mode), and the descriptor
    /// of a task state segment at base 0.
    pub fn new() -> (gdt: Self)
        ensures
            is_descriptor(gdt.segments()[0], SegmentType::Null, PrivilegeLevel::Kernel, true, false),
            is_descriptor(gdt.segments()[1], SegmentType::Code, PrivilegeLevel::Kernel, true, true),
            is_descriptor(gdt.segments()[2], SegmentType::Data, PrivilegeLevel::Kernel, true, false),
            is_descriptor(gdt.segments()[3], SegmentType::Code, PrivilegeLevel::User, true, true),
            is_descriptor(gdt.segments()[4], SegmentType::Data, PrivilegeLevel::User, true, false),
            is_null_tss(gdt.spec_tss()),
    {
        GlobalDescriptorTable {
            null: SegmentDescriptor::null(),
            kernel_code: SegmentDescriptor::kernel_code(),
            kernel_data: SegmentDescriptor::kernel_data(),
            user_code: SegmentDescriptor::user_code(),
            user_data: SegmentDescriptor::user_data(),
            tss: TssDescriptor::null(),
        }
    }

    /// The operand that loads this table when it lies at address `base`: its
    /// size minus one, and `base`.
    pub fn get_pointer(&self, base: u64) -> (p: DescriptorTablePointer)
        ensures
            p.limit == GDT_SIZE - 1,
            p.base == base,
    {
        DescriptorTablePointer { limit: GDT_SIZE - 1, base }
    }
}

} // verus!
